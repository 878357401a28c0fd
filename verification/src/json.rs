//! The JSON values that surfaces, components and messages carry.
//!
//! `JsonValue` is an owned JSON tree. Objects keep their members sorted by
//! key (code point order, as a `BTreeMap<String, _>` keeps them), with no key
//! twice; this is the type invariant of `JsonObject`. A number is kept as its
//! decimal text, exactly as it would be printed.
//!
//! Every value has a mathematical view, `JsonView`, over which the contracts
//! of the library are stated.

use vstd::prelude::*;

use crate::text::{
    push_char, chars_eq, chars_lt, chars_of, key_lt, lemma_key_lt_irreflexive, lemma_key_lt_total,
    lemma_key_lt_transitive,
};

verus! {

/// The mathematical model of a JSON value.
pub enum JsonView {
    Null,
    Bool(bool),
    /// A number, by its decimal text.
    Number(Seq<char>),
    Str(Seq<char>),
    Array(Seq<JsonView>),
    /// Members in order, each a key and its value.
    Object(Seq<(Seq<char>, JsonView)>),
}

/// A JSON value.
#[derive(Debug, PartialEq)]
pub enum JsonValue {
    Null,
    Bool(bool),
    /// A number, by its decimal text (for example `30`, `-2` or `1.5`).
    Number(String),
    String(String),
    Array(Vec<JsonValue>),
    Object(JsonObject),
}

/// A JSON object: members sorted by key, each key once.
#[derive(Debug, PartialEq)]
pub struct JsonObject {
    entries: Vec<(String, JsonValue)>,
}

// ---------------------------------------------------------------------------
// Views
// ---------------------------------------------------------------------------

impl JsonValue {
    /// The view of a value.
    pub open spec fn view_of(self) -> JsonView
        decreases self,
    {
        match self {
            JsonValue::Null => JsonView::Null,
            JsonValue::Bool(b) => JsonView::Bool(b),
            JsonValue::Number(t) => JsonView::Number(t@),
            JsonValue::String(s) => JsonView::Str(s@),
            JsonValue::Array(v) => JsonView::Array(items_view(v@)),
            JsonValue::Object(o) => JsonView::Object(o.entries_view()),
        }
    }
}

/// The views of a sequence of values.
pub open spec fn items_view(s: Seq<JsonValue>) -> Seq<JsonView>
    decreases s,
{
    if s.len() == 0 {
        Seq::empty()
    } else {
        items_view(s.drop_last()).push(s.last().view_of())
    }
}

/// The views of a sequence of members.
pub closed spec fn members_view(s: Seq<(String, JsonValue)>) -> Seq<(Seq<char>, JsonView)>
    decreases s,
{
    if s.len() == 0 {
        Seq::empty()
    } else {
        members_view(s.drop_last()).push((s.last().0@, s.last().1.view_of()))
    }
}

impl JsonObject {
    /// The view of an object: its members in order.
    pub closed spec fn entries_view(self) -> Seq<(Seq<char>, JsonView)>
        decreases self,
    {
        members_view(self.entries@)
    }

    /// Members are sorted by key, so no key occurs twice.
    #[verifier::type_invariant]
    closed spec fn keys_in_order(self) -> bool {
        forall|i: int, j: int|
            0 <= i < j < self.entries@.len() ==> key_lt(
                #[trigger] self.entries@[i].0@,
                #[trigger] self.entries@[j].0@,
            )
    }
}

impl View for JsonValue {
    type V = JsonView;

    open spec fn view(&self) -> JsonView {
        self.view_of()
    }
}

impl DeepView for JsonValue {
    type V = JsonView;

    open spec fn deep_view(&self) -> JsonView {
        self.view_of()
    }
}

impl View for JsonObject {
    type V = Seq<(Seq<char>, JsonView)>;

    open spec fn view(&self) -> Seq<(Seq<char>, JsonView)> {
        self.entries_view()
    }
}

/// `items_view` maps each value to its view.
pub proof fn lemma_items_view(s: Seq<JsonValue>)
    ensures
        items_view(s).len() == s.len(),
        forall|i: int| 0 <= i < s.len() ==> #[trigger] items_view(s)[i] == s[i].view_of(),
    decreases s.len(),
{
    if s.len() > 0 {
        lemma_items_view(s.drop_last());
    }
}

proof fn lemma_members_view(s: Seq<(String, JsonValue)>)
    ensures
        members_view(s).len() == s.len(),
        forall|i: int|
            0 <= i < s.len() ==> #[trigger] members_view(s)[i] == (s[i].0@, s[i].1.view_of()),
    decreases s.len(),
{
    if s.len() > 0 {
        lemma_members_view(s.drop_last());
    }
}

pub proof fn lemma_items_view_push(s: Seq<JsonValue>, x: JsonValue)
    ensures
        items_view(s.push(x)) == items_view(s).push(x.view_of()),
{
    assert(s.push(x).drop_last() =~= s);
}

proof fn lemma_members_view_push(s: Seq<(String, JsonValue)>, x: (String, JsonValue))
    ensures
        members_view(s.push(x)) == members_view(s).push((x.0@, x.1.view_of())),
{
    assert(s.push(x).drop_last() =~= s);
}

// ---------------------------------------------------------------------------
// Members of objects, in the model
// ---------------------------------------------------------------------------

/// Keys strictly increase along the members.
pub open spec fn keys_sorted(es: Seq<(Seq<char>, JsonView)>) -> bool {
    forall|i: int, j: int| 0 <= i < j < es.len() ==> key_lt(#[trigger] es[i].0, #[trigger] es[j].0)
}

/// Every object inside the value, the value itself included, keeps its keys
/// sorted.
pub open spec fn json_wf(v: JsonView) -> bool
    decreases v,
{
    match v {
        JsonView::Array(items) => forall|i: int| 0 <= i < items.len() ==> json_wf(#[trigger] items[i]),
        JsonView::Object(es) => keys_sorted(es) && forall|i: int|
            0 <= i < es.len() ==> json_wf(#[trigger] es[i].1),
        _ => true,
    }
}

/// The position of the first member with key `k`, or the number of members
/// when there is none.
pub open spec fn obj_index(es: Seq<(Seq<char>, JsonView)>, k: Seq<char>) -> int
    decreases es.len(),
{
    if es.len() == 0 {
        0
    } else if es[0].0 == k {
        0
    } else {
        1 + obj_index(es.drop_first(), k)
    }
}

/// The value of key `k`, if any.
pub open spec fn obj_lookup(es: Seq<(Seq<char>, JsonView)>, k: Seq<char>) -> Option<JsonView> {
    let i = obj_index(es, k);
    if i < es.len() {
        Some(es[i].1)
    } else {
        None
    }
}

/// Where a new key `k` goes: after every leading member whose key sorts
/// before `k`.
pub open spec fn insert_pos(es: Seq<(Seq<char>, JsonView)>, k: Seq<char>) -> int
    decreases es.len(),
{
    if es.len() == 0 {
        0
    } else if key_lt(es[0].0, k) {
        1 + insert_pos(es.drop_first(), k)
    } else {
        0
    }
}

/// The members after setting key `k` to `v`: an existing member is updated
/// in place, a new one goes where its key sorts.
pub open spec fn obj_insert(es: Seq<(Seq<char>, JsonView)>, k: Seq<char>, v: JsonView) -> Seq<
    (Seq<char>, JsonView),
> {
    let i = obj_index(es, k);
    if i < es.len() {
        es.update(i, (k, v))
    } else {
        es.insert(insert_pos(es, k), (k, v))
    }
}

/// The members without key `k`.
pub open spec fn obj_remove(es: Seq<(Seq<char>, JsonView)>, k: Seq<char>) -> Seq<
    (Seq<char>, JsonView),
> {
    let i = obj_index(es, k);
    if i < es.len() {
        es.remove(i)
    } else {
        es
    }
}

/// The members whose key is neither `a` nor `b`, in order.
pub open spec fn obj_without(es: Seq<(Seq<char>, JsonView)>, a: Seq<char>, b: Seq<char>) -> Seq<
    (Seq<char>, JsonView),
>
    decreases es.len(),
{
    if es.len() == 0 {
        Seq::empty()
    } else {
        let rest = obj_without(es.drop_last(), a, b);
        if es.last().0 == a || es.last().0 == b {
            rest
        } else {
            rest.push(es.last())
        }
    }
}

/// `obj_index` is the first position holding `k`.
pub proof fn lemma_obj_index(es: Seq<(Seq<char>, JsonView)>, k: Seq<char>, i: int)
    requires
        0 <= i <= es.len(),
        forall|j: int| 0 <= j < i ==> #[trigger] es[j].0 != k,
        i == es.len() || es[i].0 == k,
    ensures
        obj_index(es, k) == i,
    decreases i,
{
    if i > 0 {
        assert forall|j: int| 0 <= j < i - 1 implies #[trigger] es.drop_first()[j].0 != k by {
            assert(es.drop_first()[j] == es[j + 1]);
        }
        lemma_obj_index(es.drop_first(), k, i - 1);
    }
}

/// `obj_index` is within bounds, and no earlier member holds `k`.
pub proof fn lemma_obj_index_bounds(es: Seq<(Seq<char>, JsonView)>, k: Seq<char>)
    ensures
        0 <= obj_index(es, k) <= es.len(),
        obj_index(es, k) < es.len() ==> es[obj_index(es, k)].0 == k,
        forall|j: int| 0 <= j < obj_index(es, k) ==> #[trigger] es[j].0 != k,
    decreases es.len(),
{
    if es.len() > 0 && es[0].0 != k {
        lemma_obj_index_bounds(es.drop_first(), k);
        assert forall|j: int| 0 <= j < obj_index(es, k) implies #[trigger] es[j].0 != k by {
            if j > 0 {
                assert(es.drop_first()[j - 1] == es[j]);
            }
        }
    }
}

proof fn lemma_insert_pos(es: Seq<(Seq<char>, JsonView)>, k: Seq<char>, i: int)
    requires
        0 <= i <= es.len(),
        forall|j: int| 0 <= j < i ==> key_lt(#[trigger] es[j].0, k),
        i == es.len() || !key_lt(es[i].0, k),
    ensures
        insert_pos(es, k) == i,
    decreases i,
{
    if i > 0 {
        assert forall|j: int| 0 <= j < i - 1 implies key_lt(#[trigger] es.drop_first()[j].0, k) by {
            assert(es.drop_first()[j] == es[j + 1]);
        }
        lemma_insert_pos(es.drop_first(), k, i - 1);
    }
}

/// Setting a key and reading it back gives the value set.
pub proof fn lemma_obj_insert_lookup(es: Seq<(Seq<char>, JsonView)>, k: Seq<char>, v: JsonView)
    ensures
        obj_lookup(obj_insert(es, k, v), k) == Some(v),
{
    lemma_obj_index_bounds(es, k);
    let i = obj_index(es, k);
    let es2 = obj_insert(es, k, v);
    if i < es.len() {
        lemma_obj_index(es2, k, i);
    } else {
        let p = insert_pos(es, k);
        lemma_insert_pos_bounds(es, k);
        assert forall|j: int| 0 <= j < p implies #[trigger] es2[j].0 != k by {
            assert(es2[j] == es[j]);
        }
        lemma_obj_index(es2, k, p);
    }
}

/// Setting a key leaves the other keys as they were.
pub proof fn lemma_obj_insert_other(
    es: Seq<(Seq<char>, JsonView)>,
    k: Seq<char>,
    v: JsonView,
    k2: Seq<char>,
)
    requires
        k2 != k,
    ensures
        obj_lookup(obj_insert(es, k, v), k2) == obj_lookup(es, k2),
{
    lemma_obj_index_bounds(es, k);
    lemma_obj_index_bounds(es, k2);
    let i = obj_index(es, k);
    let i2 = obj_index(es, k2);
    let es2 = obj_insert(es, k, v);
    if i < es.len() {
        lemma_obj_index(es2, k2, i2);
    } else {
        let p = insert_pos(es, k);
        lemma_insert_pos_bounds(es, k);
        if i2 < p {
            assert forall|j: int| 0 <= j < i2 implies #[trigger] es2[j].0 != k2 by {
                assert(es2[j] == es[j]);
            }
            assert(es2[i2] == es[i2]);
            lemma_obj_index(es2, k2, i2);
        } else {
            assert forall|j: int| 0 <= j < i2 + 1 implies #[trigger] es2[j].0 != k2 by {
                if j < p {
                    assert(es2[j] == es[j]);
                } else if j > p {
                    assert(es2[j] == es[j - 1]);
                }
            }
            if i2 < es.len() {
                assert(es2[i2 + 1] == es[i2]);
            }
            lemma_obj_index(es2, k2, i2 + 1);
        }
    }
}

pub proof fn lemma_insert_pos_bounds(es: Seq<(Seq<char>, JsonView)>, k: Seq<char>)
    ensures
        0 <= insert_pos(es, k) <= es.len(),
        forall|j: int| 0 <= j < insert_pos(es, k) ==> key_lt(#[trigger] es[j].0, k),
        insert_pos(es, k) < es.len() ==> !key_lt(es[insert_pos(es, k)].0, k),
    decreases es.len(),
{
    if es.len() > 0 && key_lt(es[0].0, k) {
        lemma_insert_pos_bounds(es.drop_first(), k);
        assert forall|j: int| 0 <= j < insert_pos(es, k) implies key_lt(#[trigger] es[j].0, k) by {
            if j > 0 {
                assert(es.drop_first()[j - 1] == es[j]);
            }
        }
    }
}

/// In sorted members, a key absent from them leaves them sorted when it is
/// inserted where it sorts.
proof fn lemma_insert_sorted(es: Seq<(Seq<char>, JsonView)>, k: Seq<char>, v: JsonView)
    requires
        keys_sorted(es),
        obj_index(es, k) == es.len(),
    ensures
        keys_sorted(es.insert(insert_pos(es, k), (k, v))),
{
    lemma_obj_index_bounds(es, k);
    lemma_insert_pos_bounds(es, k);
    let p = insert_pos(es, k);
    let es2 = es.insert(p, (k, v));
    assert forall|i: int, j: int| 0 <= i < j < es2.len() implies key_lt(
        #[trigger] es2[i].0,
        #[trigger] es2[j].0,
    ) by {
        if j < p {
            assert(es2[i] == es[i] && es2[j] == es[j]);
        } else if j == p {
            assert(es2[i] == es[i]);
        } else if i < p {
            assert(es2[i] == es[i] && es2[j] == es[j - 1]);
            // es[i] < k <= es[p] <= es[j - 1]
            lemma_key_lt_total(es[p].0, k);
            lemma_key_lt_transitive(es[i].0, k, es[p].0);
            if j - 1 > p {
                lemma_key_lt_transitive(es[i].0, es[p].0, es[j - 1].0);
            }
        } else if i == p {
            assert(es2[j] == es[j - 1]);
            lemma_key_lt_total(es[p].0, k);
            if j - 1 > p {
                lemma_key_lt_transitive(k, es[p].0, es[j - 1].0);
            }
        } else {
            assert(es2[i] == es[i - 1] && es2[j] == es[j - 1]);
        }
    }
}

/// In sorted members, no key occurs twice.
pub proof fn lemma_sorted_unique(es: Seq<(Seq<char>, JsonView)>, i: int, j: int)
    requires
        keys_sorted(es),
        0 <= i < es.len(),
        0 <= j < es.len(),
        i != j,
    ensures
        es[i].0 != es[j].0,
{
    if i < j {
        lemma_key_lt_irreflexive(es[i].0);
    } else {
        lemma_key_lt_irreflexive(es[j].0);
    }
}

/// In sorted members, removing a key makes it absent.
pub proof fn lemma_obj_remove_lookup(es: Seq<(Seq<char>, JsonView)>, k: Seq<char>)
    requires
        keys_sorted(es),
    ensures
        obj_lookup(obj_remove(es, k), k) == None::<JsonView>,
        keys_sorted(obj_remove(es, k)),
{
    lemma_obj_index_bounds(es, k);
    let i = obj_index(es, k);
    let es2 = obj_remove(es, k);
    if i < es.len() {
        assert forall|j: int| 0 <= j < es2.len() implies #[trigger] es2[j].0 != k by {
            if j < i {
                assert(es2[j] == es[j]);
            } else {
                assert(es2[j] == es[j + 1]);
                lemma_sorted_unique(es, i, j + 1);
            }
        }
        assert forall|a: int, b: int| 0 <= a < b < es2.len() implies key_lt(
            #[trigger] es2[a].0,
            #[trigger] es2[b].0,
        ) by {
            let a0 = if a < i { a } else { a + 1 };
            let b0 = if b < i { b } else { b + 1 };
            assert(es2[a] == es[a0]);
            assert(es2[b] == es[b0]);
        }
    } else {
        assert forall|j: int| 0 <= j < es2.len() implies #[trigger] es2[j].0 != k by {}
    }
    lemma_obj_index(es2, k, es2.len() as int);
}

/// Setting a key keeps sorted members sorted.
pub proof fn lemma_obj_insert_sorted(es: Seq<(Seq<char>, JsonView)>, k: Seq<char>, v: JsonView)
    requires
        keys_sorted(es),
    ensures
        keys_sorted(obj_insert(es, k, v)),
{
    lemma_obj_index_bounds(es, k);
    if obj_index(es, k) == es.len() {
        lemma_insert_sorted(es, k, v);
    } else {
        let i = obj_index(es, k);
        let es2 = obj_insert(es, k, v);
        assert forall|a: int, b: int| 0 <= a < b < es2.len() implies key_lt(
            #[trigger] es2[a].0,
            #[trigger] es2[b].0,
        ) by {
            assert(es2[a].0 == es[a].0);
            assert(es2[b].0 == es[b].0);
        }
    }
}

/// Looking up in members with one more at the end.
pub proof fn lemma_lookup_push(s: Seq<(Seq<char>, JsonView)>, x: (Seq<char>, JsonView), k: Seq<char>)
    ensures
        obj_lookup(s.push(x), k) == match obj_lookup(s, k) {
            Some(v) => Some(v),
            None => if x.0 == k {
                Some(x.1)
            } else {
                None
            },
        },
{
    lemma_obj_index_bounds(s, k);
    let i = obj_index(s, k);
    let s2 = s.push(x);
    if i < s.len() {
        assert forall|j: int| 0 <= j < i implies #[trigger] s2[j].0 != k by {
            assert(s2[j] == s[j]);
        }
        lemma_obj_index(s2, k, i);
    } else if x.0 == k {
        assert forall|j: int| 0 <= j < s.len() implies #[trigger] s2[j].0 != k by {
            assert(s2[j] == s[j]);
        }
        lemma_obj_index(s2, k, s.len() as int);
    } else {
        assert forall|j: int| 0 <= j < s2.len() implies #[trigger] s2[j].0 != k by {
            if j < s.len() {
                assert(s2[j] == s[j]);
            }
        }
        lemma_obj_index(s2, k, s2.len() as int);
    }
}

/// Dropping keys `a` and `b` leaves every other key's value.
pub proof fn lemma_without_lookup(
    es: Seq<(Seq<char>, JsonView)>,
    a: Seq<char>,
    b: Seq<char>,
    k: Seq<char>,
)
    requires
        k != a,
        k != b,
    ensures
        obj_lookup(obj_without(es, a, b), k) == obj_lookup(es, k),
    decreases es.len(),
{
    if es.len() > 0 {
        let init = es.drop_last();
        lemma_without_lookup(init, a, b, k);
        assert(es =~= init.push(es.last()));
        lemma_lookup_push(init, es.last(), k);
        if !(es.last().0 == a || es.last().0 == b) {
            lemma_lookup_push(obj_without(init, a, b), es.last(), k);
        }
    } else {
        lemma_obj_index(es, k, 0);
        lemma_obj_index(obj_without(es, a, b), k, 0);
    }
}

/// Dropping keys `a` and `b` leaves neither.
pub proof fn lemma_without_lookup_removed(es: Seq<(Seq<char>, JsonView)>, a: Seq<char>, b: Seq<char>)
    ensures
        obj_lookup(obj_without(es, a, b), a) is None,
        obj_lookup(obj_without(es, a, b), b) is None,
    decreases es.len(),
{
    if es.len() > 0 {
        let init = es.drop_last();
        lemma_without_lookup_removed(init, a, b);
        if !(es.last().0 == a || es.last().0 == b) {
            lemma_lookup_push(obj_without(init, a, b), es.last(), a);
            lemma_lookup_push(obj_without(init, a, b), es.last(), b);
        }
    } else {
        lemma_obj_index(obj_without(es, a, b), a, 0);
        lemma_obj_index(obj_without(es, a, b), b, 0);
    }
}

// ---------------------------------------------------------------------------
// Reading values, in the model
// ---------------------------------------------------------------------------

/// `value.get(key)`: the member `key` of an object; nothing for other values.
pub open spec fn value_get(v: JsonView, k: Seq<char>) -> Option<JsonView> {
    match v {
        JsonView::Object(es) => obj_lookup(es, k),
        _ => None,
    }
}

/// `value.as_str()`: the text of a string value.
pub open spec fn value_str(v: JsonView) -> Option<Seq<char>> {
    match v {
        JsonView::Str(s) => Some(s),
        _ => None,
    }
}

/// The text of `v.get(k)` when it is a string.
pub open spec fn get_str(v: JsonView, k: Seq<char>) -> Option<Seq<char>> {
    match value_get(v, k) {
        Some(x) => value_str(x),
        None => None,
    }
}

/// The value is an object holding key `k`.
pub open spec fn has_key(v: JsonView, k: Seq<char>) -> bool {
    value_get(v, k) is Some
}

/// The empty object.
pub open spec fn empty_object() -> JsonView {
    JsonView::Object(Seq::empty())
}

// ---------------------------------------------------------------------------
// Objects
// ---------------------------------------------------------------------------

impl JsonObject {
    /// An object with no members.
    pub fn new() -> (r: JsonObject)
        ensures
            r@ == Seq::<(Seq<char>, JsonView)>::empty(),
    {
        let r = JsonObject { entries: Vec::new() };
        proof {
            assert(r.entries@ =~= Seq::<(String, JsonValue)>::empty());
        }
        r
    }

    /// Members are sorted by key.
    pub fn sorted_members(&self)
        ensures
            keys_sorted(self@),
    {
        proof {
            use_type_invariant(self);
            lemma_members_view(self.entries@);
            assert forall|i: int, j: int| 0 <= i < j < self@.len() implies key_lt(
                #[trigger] self@[i].0,
                #[trigger] self@[j].0,
            ) by {
                assert(self@[i].0 == self.entries@[i].0@);
                assert(self@[j].0 == self.entries@[j].0@);
            }
        }
    }

    /// The number of members.
    pub fn len(&self) -> (r: usize)
        ensures
            r == self@.len(),
    {
        proof {
            lemma_members_view(self.entries@);
        }
        self.entries.len()
    }

    /// The key of member `i`.
    pub fn key_at(&self, i: usize) -> (r: &String)
        requires
            i < self@.len(),
        ensures
            r@ == self@[i as int].0,
    {
        proof {
            lemma_members_view(self.entries@);
        }
        &self.entries[i].0
    }

    /// The value of member `i`.
    pub fn value_at(&self, i: usize) -> (r: &JsonValue)
        requires
            i < self@.len(),
        ensures
            r@ == self@[i as int].1,
    {
        proof {
            lemma_members_view(self.entries@);
        }
        &self.entries[i].1
    }

    /// The position of key `key`, or the number of members when absent.
    pub fn find(&self, key: &Vec<char>) -> (r: usize)
        ensures
            r == obj_index(self@, key@),
    {
        proof {
            lemma_members_view(self.entries@);
        }
        let mut i: usize = 0;
        while i < self.entries.len()
            invariant
                i <= self.entries@.len(),
                self.entries@.len() == self@.len(),
                forall|j: int| 0 <= j < self@.len() ==> #[trigger] self@[j] == (
                    self.entries@[j].0@,
                    self.entries@[j].1.view_of(),
                ),
                forall|j: int| 0 <= j < i ==> #[trigger] self@[j].0 != key@,
            decreases self.entries.len() - i,
        {
            let k = chars_of(self.entries[i].0.as_str());
            if chars_eq(&k, key) {
                proof {
                    lemma_obj_index(self@, key@, i as int);
                }
                return i;
            }
            i = i + 1;
        }
        proof {
            lemma_obj_index(self@, key@, i as int);
        }
        i
    }

    /// The value of key `key`, if any.
    pub fn get(&self, key: &str) -> (r: Option<&JsonValue>)
        ensures
            r.deep_view() == obj_lookup(self@, key@),
    {
        let k = chars_of(key);
        let i = self.find(&k);
        if i < self.len() {
            Some(self.value_at(i))
        } else {
            None
        }
    }

    /// Replaces the value of member `i`, returning the value it had.
    pub fn replace_value_at(&mut self, i: usize, v: JsonValue) -> (r: JsonValue)
        requires
            i < old(self)@.len(),
        ensures
            final(self)@ == old(self)@.update(i as int, (old(self)@[i as int].0, v@)),
            r@ == old(self)@[i as int].1,
    {
        proof {
            use_type_invariant(&*self);
            lemma_members_view(self.entries@);
        }
        let key = self.entries[i].0.clone();
        let mut pair = (key, v);
        let mut es: Vec<(String, JsonValue)> = Vec::new();
        std::mem::swap(&mut es, &mut self.entries);
        es.set_and_swap(i, &mut pair);
        proof {
            assert forall|a: int, b: int| 0 <= a < b < es@.len() implies key_lt(
                #[trigger] es@[a].0@,
                #[trigger] es@[b].0@,
            ) by {
                assert(es@[a].0@ == old(self).entries@[a].0@);
                assert(es@[b].0@ == old(self).entries@[b].0@);
            }
        }
        self.entries = es;
        proof {
            lemma_members_view(self.entries@);
            assert(self@ =~= old(self)@.update(i as int, (old(self)@[i as int].0, v@)));
        }
        pair.1
    }

    /// Sets key `key` to `value`, returning the value it had.
    pub fn insert(&mut self, key: String, value: JsonValue) -> (r: Option<JsonValue>)
        ensures
            final(self)@ == obj_insert(old(self)@, key@, value@),
            r.deep_view() == obj_lookup(old(self)@, key@),
    {
        proof {
            use_type_invariant(&*self);
            lemma_members_view(self.entries@);
        }
        self.sorted_members();
        let k = chars_of(key.as_str());
        let i = self.find(&k);
        if i < self.len() {
            let old_v = self.replace_value_at(i, value);
            proof {
                lemma_obj_index_bounds(old(self)@, key@);
            }
            return Some(old_v);
        }
        let mut p: usize = 0;
        while p < self.entries.len()
            invariant
                p <= self.entries@.len(),
                self.entries@.len() == self@.len(),
                forall|j: int| 0 <= j < self@.len() ==> #[trigger] self@[j] == (
                    self.entries@[j].0@,
                    self.entries@[j].1.view_of(),
                ),
                forall|j: int| 0 <= j < p ==> key_lt(#[trigger] self@[j].0, key@),
                k@ == key@,
            ensures
                p == self@.len() || !key_lt(self@[p as int].0, key@),
            decreases self.entries.len() - p,
        {
            let kp = chars_of(self.entries[p].0.as_str());
            if !chars_lt(&kp, &k) {
                break;
            }
            p = p + 1;
        }
        proof {
            lemma_obj_index_bounds(self@, key@);
            lemma_insert_pos(self@, key@, p as int);
            lemma_insert_sorted(self@, key@, value@);
            lemma_members_view(self.entries@.insert(p as int, (key, value)));
            assert(members_view(self.entries@.insert(p as int, (key, value))) =~= self@.insert(
                p as int,
                (key@, value@),
            ));
            let ne = self.entries@.insert(p as int, (key, value));
            assert forall|a: int, b: int| 0 <= a < b < ne.len() implies key_lt(
                #[trigger] ne[a].0@,
                #[trigger] ne[b].0@,
            ) by {
                assert(members_view(ne)[a].0 == ne[a].0@);
                assert(members_view(ne)[b].0 == ne[b].0@);
            }
        }
        let mut es: Vec<(String, JsonValue)> = Vec::new();
        std::mem::swap(&mut es, &mut self.entries);
        es.insert(p, (key, value));
        self.entries = es;
        None
    }

    /// Removes key `key`, returning its value.
    pub fn remove(&mut self, key: &str) -> (r: Option<JsonValue>)
        ensures
            final(self)@ == obj_remove(old(self)@, key@),
            r.deep_view() == obj_lookup(old(self)@, key@),
    {
        proof {
            use_type_invariant(&*self);
            lemma_members_view(self.entries@);
        }
        let k = chars_of(key);
        let i = self.find(&k);
        if i < self.len() {
            let ghost old_entries = self.entries@;
            proof {
                lemma_members_view(old_entries.remove(i as int));
                assert(members_view(old_entries.remove(i as int)) =~= self@.remove(i as int));
                let ne = old_entries.remove(i as int);
                assert forall|a: int, b: int| 0 <= a < b < ne.len() implies key_lt(
                    #[trigger] ne[a].0@,
                    #[trigger] ne[b].0@,
                ) by {
                    let a0 = if a < i { a } else { a + 1 };
                    let b0 = if b < i { b } else { b + 1 };
                    assert(ne[a] == old_entries[a0]);
                    assert(ne[b] == old_entries[b0]);
                }
            }
            let mut es: Vec<(String, JsonValue)> = Vec::new();
            std::mem::swap(&mut es, &mut self.entries);
            let (_, v) = es.remove(i);
            self.entries = es;
            Some(v)
        } else {
            None
        }
    }

    /// The members whose key is neither `a` nor `b`.
    pub fn without_keys(&self, a: &str, b: &str) -> (r: JsonObject)
        ensures
            r@ == obj_without(self@, a@, b@),
    {
        proof {
            use_type_invariant(self);
            lemma_members_view(self.entries@);
        }
        let ka = chars_of(a);
        let kb = chars_of(b);
        let mut out: Vec<(String, JsonValue)> = Vec::new();
        let mut i: usize = 0;
        let ghost mut src: Seq<int> = Seq::empty();
        proof {
            assert(self@.take(0) =~= Seq::<(Seq<char>, JsonView)>::empty());
            assert(members_view(out@) =~= obj_without(self@.take(0), a@, b@));
        }
        while i < self.entries.len()
            invariant
                i <= self.entries@.len(),
                self.entries@.len() == self@.len(),
                forall|j: int| 0 <= j < self@.len() ==> #[trigger] self@[j] == (
                    self.entries@[j].0@,
                    self.entries@[j].1.view_of(),
                ),
                members_view(out@) == obj_without(self@.take(i as int), a@, b@),
                ka@ == a@,
                kb@ == b@,
                src.len() == out@.len(),
                forall|j: int| 0 <= j < src.len() ==> 0 <= #[trigger] src[j] < i,
                forall|j: int|
                    0 <= j < src.len() ==> #[trigger] out@[j].0@ == self.entries@[src[j]].0@,
                forall|j1: int, j2: int| 0 <= j1 < j2 < src.len() ==> #[trigger] src[j1] < #[trigger] src[j2],
                forall|x: int, y: int|
                    0 <= x < y < self.entries@.len() ==> key_lt(
                        #[trigger] self.entries@[x].0@,
                        #[trigger] self.entries@[y].0@,
                    ),
            decreases self.entries.len() - i,
        {
            let key = chars_of(self.entries[i].0.as_str());
            proof {
                assert(self@.take(i + 1).drop_last() =~= self@.take(i as int));
                assert(self@.take(i + 1).last() == self@[i as int]);
            }
            if !chars_eq(&key, &ka) && !chars_eq(&key, &kb) {
                let pair = (self.entries[i].0.clone(), self.entries[i].1.deep_clone());
                proof {
                    lemma_members_view_push(out@, pair);
                }
                out.push(pair);
                proof {
                    src = src.push(i as int);
                }
            }
            i = i + 1;
        }
        proof {
            assert(self@.take(i as int) =~= self@);
            assert forall|x: int, y: int| 0 <= x < y < out@.len() implies key_lt(
                #[trigger] out@[x].0@,
                #[trigger] out@[y].0@,
            ) by {
                assert(src[x] < src[y]);
            }
        }
        JsonObject { entries: out }
    }

    /// A copy of the object.
    pub fn deep_clone(&self) -> (r: JsonObject)
        ensures
            r@ == self@,
        decreases self,
    {
        proof {
            use_type_invariant(self);
        }
        let mut out: Vec<(String, JsonValue)> = Vec::new();
        let mut i: usize = 0;
        while i < self.entries.len()
            invariant
                i <= self.entries@.len(),
                out@.len() == i,
                members_view(out@) == members_view(self.entries@.take(i as int)),
                forall|j: int| 0 <= j < i ==> #[trigger] out@[j].0@ == self.entries@[j].0@,
                forall|x: int, y: int|
                    0 <= x < y < self.entries@.len() ==> key_lt(
                        #[trigger] self.entries@[x].0@,
                        #[trigger] self.entries@[y].0@,
                    ),
            decreases self.entries.len() - i,
        {
            proof {
                assert(decreases_to!(self => self.entries));
                assert(decreases_to!(self.entries => self.entries@));
                assert(decreases_to!(self.entries@ => self.entries@[i as int]));
            }
            let pair = (self.entries[i].0.clone(), self.entries[i].1.deep_clone());
            proof {
                lemma_members_view_push(out@, pair);
                lemma_members_view_push(self.entries@.take(i as int), self.entries@[i as int]);
                assert(self.entries@.take(i + 1) =~= self.entries@.take(i as int).push(
                    self.entries@[i as int],
                ));
            }
            out.push(pair);
            i = i + 1;
        }
        proof {
            assert(self.entries@.take(i as int) =~= self.entries@);
        }
        JsonObject { entries: out }
    }
}

// ---------------------------------------------------------------------------
// Values
// ---------------------------------------------------------------------------

impl JsonValue {
    /// A copy of the value.
    pub fn deep_clone(&self) -> (r: JsonValue)
        ensures
            r@ == self@,
        decreases self,
    {
        match self {
            JsonValue::Null => JsonValue::Null,
            JsonValue::Bool(b) => JsonValue::Bool(*b),
            JsonValue::Number(t) => JsonValue::Number(t.clone()),
            JsonValue::String(s) => JsonValue::String(s.clone()),
            JsonValue::Array(items) => {
                let mut out: Vec<JsonValue> = Vec::new();
                let mut i: usize = 0;
                while i < items.len()
                    invariant
                        i <= items@.len(),
                        *self == JsonValue::Array(*items),
                        items_view(out@) == items_view(items@.take(i as int)),
                    decreases items.len() - i,
                {
                    proof {
                        assert(decreases_to!(*self => (*self)->Array_0));
                        assert(decreases_to!(*items => items@));
                        assert(decreases_to!(items@ => items@[i as int]));
                    }
                    let c = items[i].deep_clone();
                    proof {
                        lemma_items_view_push(out@, c);
                        lemma_items_view_push(items@.take(i as int), items@[i as int]);
                        assert(items@.take(i + 1) =~= items@.take(i as int).push(items@[i as int]));
                    }
                    out.push(c);
                    i = i + 1;
                }
                proof {
                    assert(items@.take(i as int) =~= items@);
                }
                JsonValue::Array(out)
            },
            JsonValue::Object(o) => JsonValue::Object(o.deep_clone()),
        }
    }

    /// `value.get(key)`: the member `key` of an object.
    pub fn get(&self, key: &str) -> (r: Option<&JsonValue>)
        ensures
            r.deep_view() == value_get(self@, key@),
    {
        match self {
            JsonValue::Object(o) => o.get(key),
            _ => None,
        }
    }

    /// `value.as_str()`: the text of a string value.
    pub fn as_str(&self) -> (r: Option<&String>)
        ensures
            match r {
                Some(s) => value_str(self@) == Some(s@),
                None => value_str(self@) is None,
            },
    {
        match self {
            JsonValue::String(s) => Some(s),
            _ => None,
        }
    }

    /// Whether the value is an object holding key `key`.
    pub fn contains_key(&self, key: &str) -> (r: bool)
        ensures
            r == has_key(self@, key@),
    {
        self.get(key).is_some()
    }

    /// An empty object.
    pub fn new_object() -> (r: JsonValue)
        ensures
            r@ == empty_object(),
    {
        JsonValue::Object(JsonObject::new())
    }

    /// Every object in the value keeps its keys sorted.
    pub fn well_formed(&self)
        ensures
            json_wf(self@),
        decreases self,
    {
        match self {
            JsonValue::Array(items) => {
                let mut i: usize = 0;
                proof {
                    lemma_items_view(items@);
                }
                while i < items.len()
                    invariant
                        i <= items@.len(),
                        *self == JsonValue::Array(*items),
                        items_view(items@).len() == items@.len(),
                        forall|j: int| 0 <= j < items@.len() ==> #[trigger] items_view(items@)[j] == items@[j].view_of(),
                        forall|j: int| 0 <= j < i ==> json_wf(#[trigger] items_view(items@)[j]),
                    decreases items.len() - i,
                {
                    proof {
                        assert(decreases_to!(*self => (*self)->Array_0));
                        assert(decreases_to!(*items => items@));
                        assert(decreases_to!(items@ => items@[i as int]));
                    }
                    items[i].well_formed();
                    i = i + 1;
                }
            },
            JsonValue::Object(o) => {
                o.sorted_members();
                proof {
                    lemma_members_view(o.entries@);
                }
                let mut i: usize = 0;
                while i < o.entries.len()
                    invariant
                        i <= o.entries@.len(),
                        *self == JsonValue::Object(*o),
                        members_view(o.entries@).len() == o.entries@.len(),
                        forall|j: int| 0 <= j < o.entries@.len() ==> #[trigger] members_view(o.entries@)[j] == (o.entries@[j].0@, o.entries@[j].1.view_of()),
                        forall|j: int| 0 <= j < i ==> json_wf(#[trigger] members_view(o.entries@)[j].1),
                    decreases o.entries.len() - i,
                {
                    proof {
                        assert(decreases_to!(*self => (*self)->Object_0));
                        assert(decreases_to!(*o => o.entries));
                        assert(decreases_to!(o.entries => o.entries@));
                        assert(decreases_to!(o.entries@ => o.entries@[i as int]));
                        assert(decreases_to!(o.entries@[i as int] => o.entries@[i as int].1));
                    }
                    o.entries[i].1.well_formed();
                    i = i + 1;
                }
            },
            _ => {},
        }
    }
}

// ---------------------------------------------------------------------------
// Text
// ---------------------------------------------------------------------------

/// A lowercase hexadecimal digit, for `0 <= n < 16`.
pub open spec fn hex_digit(n: int) -> char {
    seq!['0', '1', '2', '3', '4', '5', '6', '7', '8', '9', 'a', 'b', 'c', 'd', 'e', 'f'][n]
}

/// How a character is written inside a JSON string literal: `"` and `\`
/// escaped with a backslash, the control characters below U+0020 escaped
/// (`\b`, `\t`, `\n`, `\f`, `\r` where such a short form exists, else
/// `\u00` and two lowercase hex digits), every other character as it is.
pub open spec fn json_escape(c: char) -> Seq<char> {
    if c == '"' {
        seq!['\\', '"']
    } else if c == '\\' {
        seq!['\\', '\\']
    } else if c == '\u{8}' {
        seq!['\\', 'b']
    } else if c == '\t' {
        seq!['\\', 't']
    } else if c == '\n' {
        seq!['\\', 'n']
    } else if c == '\u{c}' {
        seq!['\\', 'f']
    } else if c == '\r' {
        seq!['\\', 'r']
    } else if (c as int) < 0x20 {
        seq!['\\', 'u', '0', '0', hex_digit((c as int) / 16), hex_digit((c as int) % 16)]
    } else {
        seq![c]
    }
}

/// The characters of a string, each written as `json_escape` gives it.
pub open spec fn json_escaped(s: Seq<char>) -> Seq<char>
    decreases s.len(),
{
    if s.len() == 0 {
        Seq::empty()
    } else {
        json_escaped(s.drop_last()) + json_escape(s.last())
    }
}

/// A string as a JSON string literal: between double quotes, escaped.
pub open spec fn json_quoted(s: Seq<char>) -> Seq<char> {
    seq!['"'] + json_escaped(s) + seq!['"']
}

/// Quotes and escapes a string as a JSON string literal (serde_json's
/// `Display` for `Value::String`).
///
/// The contract claims what serde_json's string writer does (its escape
/// table in `ser.rs`): the string between double quotes, each character as
/// `json_escape` gives it.
#[verifier::external_body]
fn quote_string(s: &String) -> (r: String)
    ensures
        r@ == json_quoted(s@),
{
    serde_json::Value::String(s.clone()).to_string()
}

/// The compact JSON text of a value: no whitespace, members in key order,
/// numbers by their text, strings quoted by `json_quoted`.
pub open spec fn json_text(v: JsonView) -> Seq<char>
    decreases v,
{
    match v {
        JsonView::Null => "null"@,
        JsonView::Bool(b) => if b {
            "true"@
        } else {
            "false"@
        },
        JsonView::Number(t) => t,
        JsonView::Str(s) => json_quoted(s),
        JsonView::Array(items) => seq!['['] + items_text(items) + seq![']'],
        JsonView::Object(es) => seq!['{'] + members_text(es) + seq!['}'],
    }
}

/// The texts of values, separated by commas.
pub open spec fn items_text(items: Seq<JsonView>) -> Seq<char>
    decreases items,
{
    if items.len() == 0 {
        Seq::empty()
    } else if items.len() == 1 {
        json_text(items[0])
    } else {
        items_text(items.drop_last()) + seq![','] + json_text(items.last())
    }
}

/// The texts of members (`"key":value`), separated by commas.
pub open spec fn members_text(es: Seq<(Seq<char>, JsonView)>) -> Seq<char>
    decreases es,
{
    if es.len() == 0 {
        Seq::empty()
    } else if es.len() == 1 {
        json_quoted(es[0].0) + seq![':'] + json_text(es[0].1)
    } else {
        members_text(es.drop_last()) + seq![','] + json_quoted(es.last().0) + seq![':'] + json_text(
            es.last().1,
        )
    }
}

/// Appends a literal string.
fn push_str(out: &mut String, lit: &str)
    ensures
        final(out)@ == old(out)@ + lit@,
{
    let cs = chars_of(lit);
    let mut i: usize = 0;
    let ghost start = out@;
    while i < cs.len()
        invariant
            i <= cs@.len(),
            cs@ == lit@,
            out@ == start + cs@.take(i as int),
        decreases cs.len() - i,
    {
        proof {
            assert(cs@.take(i + 1) =~= cs@.take(i as int).push(cs@[i as int]));
        }
        push_char(out, cs[i]);
        i = i + 1;
    }
    proof {
        assert(cs@.take(i as int) =~= cs@);
    }
}

/// Appends a string's characters.
fn push_string(out: &mut String, s: &String)
    ensures
        final(out)@ == old(out)@ + s@,
{
    push_str(out, s.as_str());
}

impl JsonValue {
    /// Appends the compact JSON text of the value.
    pub fn write_text(&self, out: &mut String)
        ensures
            final(out)@ == old(out)@ + json_text(self@),
        decreases self,
    {
        let ghost start = out@;
        match self {
            JsonValue::Null => push_str(out, "null"),
            JsonValue::Bool(b) => if *b {
                push_str(out, "true")
            } else {
                push_str(out, "false")
            },
            JsonValue::Number(t) => push_string(out, t),
            JsonValue::String(s) => {
                let q = quote_string(s);
                push_string(out, &q);
            },
            JsonValue::Array(items) => {
                push_char(out, '[');
                let mut i: usize = 0;
                proof {
                    assert(items@.take(0) =~= Seq::<JsonValue>::empty());
                }
                while i < items.len()
                    invariant
                        i <= items@.len(),
                        *self == JsonValue::Array(*items),
                        out@ == start + seq!['['] + items_text(items_view(items@.take(i as int))),
                    decreases items.len() - i,
                {
                    proof {
                        assert(decreases_to!(*self => (*self)->Array_0));
                        assert(decreases_to!(*items => items@));
                        assert(decreases_to!(items@ => items@[i as int]));
                        lemma_items_view_push(items@.take(i as int), items@[i as int]);
                        assert(items@.take(i + 1) =~= items@.take(i as int).push(items@[i as int]));
                        lemma_items_view(items@.take(i as int));
                    }
                    let ghost before = items_view(items@.take(i as int));
                    if i > 0 {
                        push_char(out, ',');
                    }
                    items[i].write_text(out);
                    proof {
                        let after = before.push(items@[i as int]@);
                        assert(after.drop_last() =~= before);
                        if i == 0 {
                            assert(out@ =~= start + seq!['['] + items_text(after));
                        } else {
                            assert(out@ =~= start + seq!['['] + items_text(after));
                        }
                    }
                    i = i + 1;
                }
                proof {
                    assert(items@.take(i as int) =~= items@);
                }
                push_char(out, ']');
                proof {
                    assert(out@ =~= start + json_text(self@));
                }
            },
            JsonValue::Object(o) => {
                push_char(out, '{');
                o.write_members(out);
                push_char(out, '}');
                proof {
                    assert(out@ =~= start + json_text(self@));
                }
            },
        }
    }

    /// The compact JSON text of the value (serde_json's `to_string`).
    pub fn to_json_text(&self) -> (r: String)
        ensures
            r@ == json_text(self@),
    {
        let mut out = String::new();
        self.write_text(&mut out);
        proof {
            assert(out@ =~= json_text(self@));
        }
        out
    }
}

impl JsonObject {
    /// Appends the members' text, `"key":value` separated by commas.
    fn write_members(&self, out: &mut String)
        ensures
            final(out)@ == old(out)@ + members_text(self@),
        decreases self,
    {
        let ghost start = out@;
        let mut i: usize = 0;
        proof {
            assert(self.entries@.take(0) =~= Seq::<(String, JsonValue)>::empty());
        }
        while i < self.entries.len()
            invariant
                i <= self.entries@.len(),
                out@ == start + members_text(members_view(self.entries@.take(i as int))),
            decreases self.entries.len() - i,
        {
            proof {
                assert(decreases_to!(self => self.entries));
                assert(decreases_to!(self.entries => self.entries@));
                assert(decreases_to!(self.entries@ => self.entries@[i as int]));
                assert(decreases_to!(self.entries@[i as int] => self.entries@[i as int].1));
                lemma_members_view_push(self.entries@.take(i as int), self.entries@[i as int]);
                assert(self.entries@.take(i + 1) =~= self.entries@.take(i as int).push(
                    self.entries@[i as int],
                ));
            }
            let ghost before = members_view(self.entries@.take(i as int));
            if i > 0 {
                push_char(out, ',');
            }
            let q = quote_string(&self.entries[i].0);
            push_string(out, &q);
            push_char(out, ':');
            self.entries[i].1.write_text(out);
            proof {
                let after = before.push((self.entries@[i as int].0@, self.entries@[i as int].1@));
                assert(after.drop_last() =~= before);
                assert(out@ =~= start + members_text(after));
            }
            i = i + 1;
        }
        proof {
            assert(self.entries@.take(i as int) =~= self.entries@);
        }
    }
}

impl Clone for JsonValue {
    fn clone(&self) -> (r: Self)
        ensures
            r@ == self@,
    {
        self.deep_clone()
    }
}

impl Clone for JsonObject {
    fn clone(&self) -> (r: Self)
        ensures
            r@ == self@,
    {
        self.deep_clone()
    }
}

} // verus!
