//! A map from strings to values, kept as a vector of pairs with each key
//! once. Surfaces keep their components in one, and a surface group its
//! surfaces.

use vstd::prelude::*;

use crate::text::{chars_eq, chars_of};

verus! {

/// Values by string key; each key at most once.
pub struct KeyedVec<T> {
    entries: Vec<(String, T)>,
}

/// The map the pairs stand for.
pub open spec fn pairs_map<T: View>(s: Seq<(String, T)>) -> Map<Seq<char>, T::V>
    decreases s.len(),
{
    if s.len() == 0 {
        Map::empty()
    } else {
        pairs_map(s.drop_last()).insert(s.last().0@, s.last().1@)
    }
}

/// No key occurs twice.
pub open spec fn keys_unique<T>(s: Seq<(String, T)>) -> bool {
    forall|i: int, j: int| 0 <= i < j < s.len() ==> #[trigger] s[i].0@ != #[trigger] s[j].0@
}

/// With unique keys, the map holds exactly the pairs' keys, each with its
/// pair's value.
pub proof fn lemma_pairs_map<T: View>(s: Seq<(String, T)>)
    requires
        keys_unique(s),
    ensures
        forall|i: int|
            0 <= i < s.len() ==> #[trigger] pairs_map(s).contains_key(s[i].0@) && pairs_map(s)[s[i].0@]
                == s[i].1@,
        forall|k: Seq<char>| #[trigger]
            pairs_map(s).contains_key(k) ==> exists|i: int| 0 <= i < s.len() && s[i].0@ == k,
        pairs_map(s).dom().finite(),
    decreases s.len(),
{
    if s.len() > 0 {
        let init = s.drop_last();
        assert(keys_unique(init)) by {
            assert forall|i: int, j: int| 0 <= i < j < init.len() implies #[trigger] init[i].0@
                != #[trigger] init[j].0@ by {
                assert(init[i] == s[i] && init[j] == s[j]);
            }
        }
        lemma_pairs_map(init);
        assert forall|i: int| 0 <= i < s.len() implies #[trigger] pairs_map(s).contains_key(
            s[i].0@,
        ) && pairs_map(s)[s[i].0@] == s[i].1@ by {
            if i < s.len() - 1 {
                assert(init[i] == s[i]);
                assert(s[i].0@ != s.last().0@);
            }
        }
        assert forall|k: Seq<char>| #[trigger]
            pairs_map(s).contains_key(k) implies exists|i: int| 0 <= i < s.len() && s[i].0@ == k by {
            if k != s.last().0@ {
                let i = choose|i: int| 0 <= i < init.len() && init[i].0@ == k;
                assert(s[i] == init[i]);
            } else {
                assert(s[s.len() - 1].0@ == k);
            }
        }
    }
}

impl<T: View> View for KeyedVec<T> {
    type V = Map<Seq<char>, T::V>;

    closed spec fn view(&self) -> Map<Seq<char>, T::V> {
        pairs_map(self.entries@)
    }
}

impl<T> KeyedVec<T> {
    #[verifier::type_invariant]
    closed spec fn unique(self) -> bool {
        keys_unique(self.entries@)
    }
}

impl<T: View> KeyedVec<T> {
    /// An empty map.
    pub fn new() -> (r: Self)
        ensures
            r@ == Map::<Seq<char>, T::V>::empty(),
    {
        KeyedVec { entries: Vec::new() }
    }

    /// The map holds finitely many keys.
    pub fn finite(&self)
        ensures
            self@.dom().finite(),
    {
        proof {
            use_type_invariant(self);
            lemma_pairs_map(self.entries@);
        }
    }

    fn find(&self, key: &Vec<char>) -> (r: Option<usize>)
        ensures
            match r {
                Some(i) => i < self.entries@.len() && self.entries@[i as int].0@ == key@,
                None => forall|i: int|
                    0 <= i < self.entries@.len() ==> #[trigger] self.entries@[i].0@ != key@,
            },
    {
        let mut i: usize = 0;
        while i < self.entries.len()
            invariant
                i <= self.entries@.len(),
                forall|j: int| 0 <= j < i ==> #[trigger] self.entries@[j].0@ != key@,
            decreases self.entries.len() - i,
        {
            let k = chars_of(self.entries[i].0.as_str());
            if chars_eq(&k, key) {
                return Some(i);
            }
            i = i + 1;
        }
        None
    }

    /// The value of key `key`, if any.
    pub fn get(&self, key: &str) -> (r: Option<&T>)
        ensures
            match r {
                Some(v) => self@.contains_key(key@) && self@[key@] == v@,
                None => !self@.contains_key(key@),
            },
    {
        proof {
            use_type_invariant(self);
            lemma_pairs_map(self.entries@);
        }
        let k = chars_of(key);
        match self.find(&k) {
            Some(i) => {
                proof {
                    assert(pairs_map(self.entries@).contains_key(self.entries@[i as int].0@));
                }
                Some(&self.entries[i].1)
            },
            None => None,
        }
    }

    /// Whether key `key` is present.
    pub fn contains_key(&self, key: &str) -> (r: bool)
        ensures
            r == self@.contains_key(key@),
    {
        self.get(key).is_some()
    }

    /// Sets key `key` to `value`.
    pub fn insert(&mut self, key: String, value: T)
        ensures
            final(self)@ == old(self)@.insert(key@, value@),
    {
        proof {
            use_type_invariant(&*self);
            lemma_pairs_map(self.entries@);
        }
        let k = chars_of(key.as_str());
        let found = self.find(&k);
        let mut es: Vec<(String, T)> = Vec::new();
        std::mem::swap(&mut es, &mut self.entries);
        let ghost old_es = es@;
        match found {
            Some(i) => {
                let mut pair = (key, value);
                es.set_and_swap(i, &mut pair);
                proof {
                    assert(keys_unique(es@)) by {
                        assert forall|a: int, b: int| 0 <= a < b < es@.len() implies #[trigger] es@[a].0@
                            != #[trigger] es@[b].0@ by {
                            assert(es@[a].0@ == old_es[a].0@);
                            assert(es@[b].0@ == old_es[b].0@);
                        }
                    }
                    lemma_pairs_map(es@);
                    assert(pairs_map(es@) =~= pairs_map(old_es).insert(key@, value@)) by {
                        assert forall|kk: Seq<char>| #[trigger] pairs_map(es@).contains_key(kk)
                            implies pairs_map(old_es).insert(key@, value@).contains_key(kk) by {
                            let j = choose|j: int| 0 <= j < es@.len() && es@[j].0@ == kk;
                            assert(old_es[j].0@ == es@[j].0@);
                        }
                        assert forall|kk: Seq<char>| #[trigger] pairs_map(old_es).insert(
                            key@,
                            value@,
                        ).contains_key(kk) implies pairs_map(es@).contains_key(kk) by {
                            if kk != key@ {
                                let j = choose|j: int| 0 <= j < old_es.len() && old_es[j].0@ == kk;
                                assert(es@[j].0@ == kk);
                                assert(pairs_map(es@).contains_key(es@[j].0@));
                            } else {
                                assert(pairs_map(es@).contains_key(es@[i as int].0@));
                            }
                        }
                        assert forall|kk: Seq<char>| #[trigger] pairs_map(es@).contains_key(kk)
                            implies pairs_map(es@)[kk] == pairs_map(old_es).insert(
                            key@,
                            value@,
                        )[kk] by {
                            let j = choose|j: int| 0 <= j < es@.len() && es@[j].0@ == kk;
                            if j != i {
                                assert(es@[j] == old_es[j]);
                            }
                        }
                    }
                }
            },
            None => {
                es.push((key, value));
                proof {
                    assert(es@.drop_last() =~= old_es);
                    assert(keys_unique(es@)) by {
                        assert forall|a: int, b: int| 0 <= a < b < es@.len() implies #[trigger] es@[a].0@
                            != #[trigger] es@[b].0@ by {
                            if b == es@.len() - 1 {
                                assert(es@[a] == old_es[a]);
                            } else {
                                assert(es@[a] == old_es[a] && es@[b] == old_es[b]);
                            }
                        }
                    }
                }
            },
        }
        self.entries = es;
    }

    /// Removes key `key`, returning its value.
    pub fn remove(&mut self, key: &str) -> (r: Option<T>)
        ensures
            final(self)@ == old(self)@.remove(key@),
            match r {
                Some(v) => old(self)@.contains_key(key@) && old(self)@[key@] == v@,
                None => !old(self)@.contains_key(key@),
            },
    {
        proof {
            use_type_invariant(&*self);
            lemma_pairs_map(self.entries@);
        }
        let k = chars_of(key);
        match self.find(&k) {
            Some(i) => {
                let mut es: Vec<(String, T)> = Vec::new();
                std::mem::swap(&mut es, &mut self.entries);
                let ghost old_es = es@;
                let (_, v) = es.remove(i);
                proof {
                    assert(pairs_map(old_es).contains_key(old_es[i as int].0@));
                    assert(old_es[i as int].1 == v);
                    assert(keys_unique(es@)) by {
                        assert forall|a: int, b: int| 0 <= a < b < es@.len() implies #[trigger] es@[a].0@
                            != #[trigger] es@[b].0@ by {
                            let a0 = if a < i { a } else { a + 1 };
                            let b0 = if b < i { b } else { b + 1 };
                            assert(es@[a] == old_es[a0]);
                            assert(es@[b] == old_es[b0]);
                        }
                    }
                    lemma_pairs_map(es@);
                    assert(pairs_map(es@) =~= pairs_map(old_es).remove(key@)) by {
                        assert forall|kk: Seq<char>| #[trigger] pairs_map(es@).contains_key(kk)
                            implies pairs_map(old_es).remove(key@).contains_key(kk) && pairs_map(es@)[kk]
                            == pairs_map(old_es).remove(key@)[kk] by {
                            let j = choose|j: int| 0 <= j < es@.len() && es@[j].0@ == kk;
                            let j0 = if j < i { j } else { j + 1 };
                            assert(es@[j] == old_es[j0]);
                            assert(old_es[i as int].0@ == key@);
                            assert(old_es[j0].0@ != old_es[i as int].0@);
                            assert(pairs_map(old_es).contains_key(old_es[j0].0@));
                            assert(pairs_map(es@).contains_key(es@[j].0@));
                        }
                        assert forall|kk: Seq<char>| #[trigger] pairs_map(old_es).remove(
                            key@,
                        ).contains_key(kk) implies pairs_map(es@).contains_key(kk) by {
                            let j = choose|j: int| 0 <= j < old_es.len() && old_es[j].0@ == kk;
                            if j < i {
                                assert(es@[j] == old_es[j]);
                                assert(pairs_map(es@).contains_key(es@[j].0@));
                            } else {
                                assert(j != i);
                                assert(es@[j - 1] == old_es[j]);
                                assert(pairs_map(es@).contains_key(es@[j - 1].0@));
                            }
                        }
                    }
                }
                self.entries = es;
                Some(v)
            },
            None => {
                proof {
                    assert(!self@.contains_key(key@)) by {
                        if self@.contains_key(key@) {
                            let j = choose|j: int|
                                0 <= j < self.entries@.len() && self.entries@[j].0@ == key@;
                        }
                    }
                    assert(self@.remove(key@) =~= self@);
                }
                None
            },
        }
    }
}

} // verus!
