//! Character-level helpers shared by the JSON model and the pointer logic.
//!
//! Strings are handled as sequences of `char`s. Every operation here has a
//! spec function over `Seq<char>` that states what it computes.

use vstd::prelude::*;

verus! {

/// Appends one character to a string (std `String::push`).
///
/// The contract claims what the std documentation states: the character is
/// added at the end and nothing else changes.
#[verifier::external_body]
pub(crate) fn push_char(s: &mut String, c: char)
    ensures
        final(s)@ == old(s)@.push(c),
{
    s.push(c);
}

/// The characters of a string slice, in order.
pub fn chars_of(s: &str) -> (r: Vec<char>)
    ensures
        r@ == s@,
{
    let mut r: Vec<char> = Vec::new();
    for c in it: s.chars()
        invariant
            it.seq() == s@,
            r@ == it.seq().take(it.index() as int),
    {
        proof {
            assert(it.seq().take(it.index() as int + 1) =~= it.seq().take(it.index() as int).push(c));
        }
        r.push(c);
    }
    proof {
        assert(r@ =~= s@);
    }
    r
}

/// A string made of the given characters.
pub fn string_of(cs: &Vec<char>) -> (r: String)
    ensures
        r@ == cs@,
{
    let mut r = String::new();
    let mut i: usize = 0;
    while i < cs.len()
        invariant
            i <= cs.len(),
            r@ == cs@.take(i as int),
        decreases cs.len() - i,
    {
        proof {
            assert(cs@.take(i as int + 1) =~= cs@.take(i as int).push(cs@[i as int]));
        }
        push_char(&mut r, cs[i]);
        i = i + 1;
    }
    proof {
        assert(cs@.take(i as int) =~= cs@);
    }
    r
}

/// Whether two character vectors hold the same characters.
pub fn chars_eq(a: &Vec<char>, b: &Vec<char>) -> (r: bool)
    ensures
        r == (a@ == b@),
{
    if a.len() != b.len() {
        return false;
    }
    let mut i: usize = 0;
    while i < a.len()
        invariant
            a.len() == b.len(),
            i <= a.len(),
            forall|j: int| 0 <= j < i ==> a@[j] == b@[j],
        decreases a.len() - i,
    {
        if a[i] != b[i] {
            return false;
        }
        i = i + 1;
    }
    proof {
        assert(a@ =~= b@);
    }
    true
}

/// Whether a string equals the given characters.
pub fn str_is(s: &str, lit: &str) -> (r: bool)
    ensures
        r == (s@ == lit@),
{
    let a = chars_of(s);
    let b = chars_of(lit);
    chars_eq(&a, &b)
}

// ---------------------------------------------------------------------------
// Ordering of strings
// ---------------------------------------------------------------------------

/// `a` sorts strictly before `b`: lexicographic order by code point, which is
/// the order of `String`'s `Ord` (UTF-8 byte order).
pub open spec fn key_lt(a: Seq<char>, b: Seq<char>) -> bool
    decreases a.len(),
{
    if a.len() == 0 {
        b.len() > 0
    } else if b.len() == 0 {
        false
    } else if a[0] != b[0] {
        (a[0] as int) < (b[0] as int)
    } else {
        key_lt(a.drop_first(), b.drop_first())
    }
}

/// No string sorts before itself.
pub proof fn lemma_key_lt_irreflexive(a: Seq<char>)
    ensures
        !key_lt(a, a),
    decreases a.len(),
{
    if a.len() > 0 {
        lemma_key_lt_irreflexive(a.drop_first());
    }
}

/// The order is transitive.
pub proof fn lemma_key_lt_transitive(a: Seq<char>, b: Seq<char>, c: Seq<char>)
    requires
        key_lt(a, b),
        key_lt(b, c),
    ensures
        key_lt(a, c),
    decreases a.len(),
{
    if a.len() > 0 && b.len() > 0 && c.len() > 0 {
        if a[0] == b[0] && b[0] == c[0] {
            lemma_key_lt_transitive(a.drop_first(), b.drop_first(), c.drop_first());
        }
    }
}

/// Two different strings are ordered one way or the other.
pub proof fn lemma_key_lt_total(a: Seq<char>, b: Seq<char>)
    requires
        a != b,
    ensures
        key_lt(a, b) || key_lt(b, a),
    decreases a.len(),
{
    if a.len() > 0 && b.len() > 0 && a[0] == b[0] {
        if a.drop_first() == b.drop_first() {
            assert(a =~= seq![a[0]] + a.drop_first());
            assert(b =~= seq![b[0]] + b.drop_first());
        }
        lemma_key_lt_total(a.drop_first(), b.drop_first());
    } else if a.len() == 0 && b.len() == 0 {
        assert(a =~= b);
    }
}

/// Whether `a` sorts strictly before `b`.
pub fn chars_lt(a: &Vec<char>, b: &Vec<char>) -> (r: bool)
    ensures
        r == key_lt(a@, b@),
{
    let mut i: usize = 0;
    proof {
        assert(a@.skip(0) =~= a@);
        assert(b@.skip(0) =~= b@);
    }
    while i < a.len() && i < b.len()
        invariant
            i <= a.len(),
            i <= b.len(),
            key_lt(a@, b@) == key_lt(a@.skip(i as int), b@.skip(i as int)),
        decreases a.len() - i,
    {
        if a[i] != b[i] {
            return a[i] < b[i];
        }
        proof {
            assert(a@.skip(i as int).drop_first() =~= a@.skip(i + 1));
            assert(b@.skip(i as int).drop_first() =~= b@.skip(i + 1));
        }
        i = i + 1;
    }
    i < b.len()
}

// ---------------------------------------------------------------------------
// Splitting, replacing and trimming
// ---------------------------------------------------------------------------

/// The pieces of `s` between occurrences of `sep`, as `str::split` gives
/// them: `n` separators give `n + 1` pieces, empty pieces included.
pub open spec fn split_on(s: Seq<char>, sep: char) -> Seq<Seq<char>>
    decreases s.len(),
{
    if s.len() == 0 {
        seq![Seq::<char>::empty()]
    } else {
        let rest = split_on(s.drop_last(), sep);
        if s.last() == sep {
            rest.push(Seq::<char>::empty())
        } else {
            rest.update(rest.len() - 1, rest.last().push(s.last()))
        }
    }
}

/// `split_on` never yields an empty list of pieces.
pub proof fn lemma_split_on_nonempty(s: Seq<char>, sep: char)
    ensures
        split_on(s, sep).len() >= 1,
    decreases s.len(),
{
    if s.len() > 0 {
        lemma_split_on_nonempty(s.drop_last(), sep);
    }
}

/// Splitting `s`, a separator and a piece without separators gives the
/// pieces of `s` and then that piece.
pub proof fn lemma_split_append(s: Seq<char>, d: Seq<char>, sep: char)
    requires
        forall|i: int| 0 <= i < d.len() ==> #[trigger] d[i] != sep,
    ensures
        split_on(s + seq![sep] + d, sep) == split_on(s, sep).push(d),
    decreases d.len(),
{
    let x = s + seq![sep] + d;
    if d.len() == 0 {
        assert(x.drop_last() =~= s);
        assert(x.last() == sep);
        assert(d =~= Seq::<char>::empty());
    } else {
        lemma_split_append(s, d.drop_last(), sep);
        assert(x.drop_last() =~= s + seq![sep] + d.drop_last());
        assert(x.last() == d.last());
        assert(d.last() == d[d.len() - 1]);
        let rest = split_on(s, sep).push(d.drop_last());
        assert(d.drop_last().push(d.last()) =~= d);
        assert(rest.last() == d.drop_last());
        assert(rest.update(rest.len() - 1, rest.last().push(d.last())) =~= split_on(s, sep).push(d));
    }
}

/// Replacing a pair that starts with a character the sequence lacks
/// changes nothing.
pub proof fn lemma_replace_pair_absent(s: Seq<char>, a: char, b: char, r: char)
    requires
        forall|i: int| 0 <= i < s.len() ==> #[trigger] s[i] != a,
    ensures
        replace_pair(s, a, b, r) == s,
    decreases s.len(),
{
    if s.len() >= 2 {
        let t = s.drop_first();
        assert forall|i: int| 0 <= i < t.len() implies #[trigger] t[i] != a by {
            assert(t[i] == s[i + 1]);
        }
        lemma_replace_pair_absent(t, a, b, r);
        assert(seq![s[0]] + t =~= s);
    }
}

/// The spec view of a vector of character vectors.
pub open spec fn seqs_of(v: Seq<Vec<char>>) -> Seq<Seq<char>> {
    Seq::new(v.len(), |i: int| v[i]@)
}

/// Splits `s` at every `sep` (std `str::split` with a `char` pattern).
pub fn split_chars(s: &Vec<char>, sep: char) -> (r: Vec<Vec<char>>)
    ensures
        seqs_of(r@) == split_on(s@, sep),
        r@.len() >= 1,
{
    let mut pieces: Vec<Vec<char>> = Vec::new();
    let mut cur: Vec<char> = Vec::new();
    let mut i: usize = 0;
    proof {
        assert(s@.take(0) =~= Seq::<char>::empty());
        assert(seqs_of(pieces@).push(cur@) =~= split_on(s@.take(0), sep));
    }
    while i < s.len()
        invariant
            i <= s.len(),
            seqs_of(pieces@).push(cur@) == split_on(s@.take(i as int), sep),
        decreases s.len() - i,
    {
        let c = s[i];
        proof {
            assert(s@.take(i + 1).drop_last() =~= s@.take(i as int));
            assert(s@.take(i + 1).last() == c);
        }
        if c == sep {
            let done = cur;
            pieces.push(done);
            cur = Vec::new();
            proof {
                assert(seqs_of(pieces@).push(cur@) =~= split_on(s@.take(i + 1), sep));
            }
        } else {
            let ghost old_cur = cur@;
            cur.push(c);
            proof {
                assert(seqs_of(pieces@).push(cur@) =~= split_on(s@.take(i + 1), sep));
            }
        }
        i = i + 1;
    }
    pieces.push(cur);
    proof {
        assert(s@.take(i as int) =~= s@);
    }
    pieces
}

/// `s` with every non-overlapping occurrence of the two characters `a b`,
/// scanned from the left, replaced by `r` (as `str::replace` does).
pub open spec fn replace_pair(s: Seq<char>, a: char, b: char, r: char) -> Seq<char>
    decreases s.len(),
{
    if s.len() < 2 {
        s
    } else if s[0] == a && s[1] == b {
        seq![r] + replace_pair(s.skip(2), a, b, r)
    } else {
        seq![s[0]] + replace_pair(s.drop_first(), a, b, r)
    }
}

/// Replaces every occurrence of `a b` by `r`, scanning from the left.
pub fn replace_chars(s: &Vec<char>, a: char, b: char, r: char) -> (out: Vec<char>)
    ensures
        out@ == replace_pair(s@, a, b, r),
{
    let mut out: Vec<char> = Vec::new();
    let mut i: usize = 0;
    proof {
        assert(s@.skip(0) =~= s@);
    }
    while i < s.len()
        invariant
            i <= s.len(),
            out@ + replace_pair(s@.skip(i as int), a, b, r) == replace_pair(s@, a, b, r),
        decreases s.len() - i,
    {
        let ghost rest = s@.skip(i as int);
        if i + 1 < s.len() && s[i] == a && s[i + 1] == b {
            proof {
                assert(rest.skip(2) =~= s@.skip(i + 2));
                assert(out@.push(r) + replace_pair(s@.skip(i + 2), a, b, r) =~= out@ + (seq![r]
                    + replace_pair(rest.skip(2), a, b, r)));
            }
            out.push(r);
            i = i + 2;
        } else {
            let c = s[i];
            proof {
                assert(rest.drop_first() =~= s@.skip(i + 1));
                if rest.len() < 2 {
                    assert(rest =~= seq![c]);
                    assert(s@.skip(i + 1) =~= Seq::<char>::empty());
                }
                assert(out@.push(c) + replace_pair(s@.skip(i + 1), a, b, r) =~= out@ + (seq![c]
                    + replace_pair(rest.drop_first(), a, b, r)));
            }
            out.push(c);
            i = i + 1;
        }
    }
    proof {
        assert(s@.skip(i as int) =~= Seq::<char>::empty());
        assert(out@ + Seq::<char>::empty() =~= out@);
    }
    out
}

/// `s` without all of its trailing `c` characters (`str::trim_end_matches`).
pub open spec fn trim_end(s: Seq<char>, c: char) -> Seq<char>
    decreases s.len(),
{
    if s.len() > 0 && s.last() == c {
        trim_end(s.drop_last(), c)
    } else {
        s
    }
}

/// Removes all trailing `c` characters.
pub fn trim_end_chars(s: &Vec<char>, c: char) -> (r: Vec<char>)
    ensures
        r@ == trim_end(s@, c),
{
    let mut n: usize = s.len();
    proof {
        assert(s@.take(n as int) =~= s@);
    }
    while n > 0 && s[n - 1] == c
        invariant
            n <= s.len(),
            trim_end(s@.take(n as int), c) == trim_end(s@, c),
        decreases n,
    {
        proof {
            assert(s@.take(n as int).drop_last() =~= s@.take(n - 1));
        }
        n = n - 1;
    }
    let mut r: Vec<char> = Vec::new();
    let mut i: usize = 0;
    while i < n
        invariant
            i <= n,
            n <= s.len(),
            r@ == s@.take(i as int),
        decreases n - i,
    {
        proof {
            assert(s@.take(i + 1) =~= s@.take(i as int).push(s@[i as int]));
        }
        r.push(s[i]);
        i = i + 1;
    }
    r
}

// ---------------------------------------------------------------------------
// Decimal numbers
// ---------------------------------------------------------------------------

/// An ASCII decimal digit.
pub open spec fn is_digit(c: char) -> bool {
    '0' <= c && c <= '9'
}

/// The value of a decimal digit.
pub open spec fn digit_value(c: char) -> nat {
    ((c as u32) - ('0' as u32)) as nat
}

/// Every character is a decimal digit.
pub open spec fn all_digits(d: Seq<char>) -> bool {
    forall|i: int| 0 <= i < d.len() ==> is_digit(#[trigger] d[i])
}

/// The number written by a sequence of decimal digits.
pub open spec fn decimal_value(d: Seq<char>) -> nat
    decreases d.len(),
{
    if d.len() == 0 {
        0
    } else {
        decimal_value(d.drop_last()) * 10 + digit_value(d.last())
    }
}

/// What `str::parse::<usize>` accepts: an optional `+`, then one or more
/// decimal digits whose value fits in `usize`.
pub open spec fn parsed_usize(t: Seq<char>) -> Option<usize> {
    let d = if t.len() > 0 && t[0] == '+' {
        t.drop_first()
    } else {
        t
    };
    if d.len() > 0 && all_digits(d) && decimal_value(d) <= usize::MAX {
        Some(decimal_value(d) as usize)
    } else {
        None
    }
}

/// Parses a decimal `usize` (std `str::parse::<usize>`).
pub fn parse_usize(t: &Vec<char>) -> (r: Option<usize>)
    ensures
        r == parsed_usize(t@),
{
    let start: usize = if t.len() > 0 && t[0] == '+' {
        1
    } else {
        0
    };
    let ghost d = t@.skip(start as int);
    proof {
        if start == 1 {
            assert(d =~= t@.drop_first());
        } else {
            assert(d =~= t@);
        }
    }
    if start == t.len() {
        proof {
            assert(d.len() == 0);
        }
        return None;
    }
    let mut acc: usize = 0;
    let mut overflow = false;
    let mut i: usize = start;
    proof {
        assert(d.take(0) =~= Seq::<char>::empty());
    }
    while i < t.len()
        invariant
            start <= i <= t.len(),
            d == t@.skip(start as int),
            start == (if t@.len() > 0 && t@[0] == '+' { 1usize } else { 0usize }),
            all_digits(d.take(i - start)),
            !overflow ==> acc as nat == decimal_value(d.take(i - start)),
            overflow ==> decimal_value(d.take(i - start)) > usize::MAX,
        decreases t.len() - i,
    {
        let c = t[i];
        let ghost k = i - start;
        proof {
            assert(d[k] == c);
            assert(d.take(k + 1).drop_last() =~= d.take(k));
            assert(d.take(k + 1).last() == c);
        }
        if !(c >= '0' && c <= '9') {
            proof {
                assert(!is_digit(d[k]));
                assert(!all_digits(d));
                if t@.len() > 0 && t@[0] == '+' {
                    assert(d =~= t@.drop_first());
                } else {
                    assert(d =~= t@);
                }
            }
            return None;
        }
        let dv: usize = ((c as u32) - ('0' as u32)) as usize;
        if !overflow {
            match acc.checked_mul(10) {
                Some(m) => match m.checked_add(dv) {
                    Some(s) => {
                        acc = s;
                    },
                    None => {
                        overflow = true;
                    },
                },
                None => {
                    overflow = true;
                },
            }
        }
        proof {
            assert(all_digits(d.take(k + 1))) by {
                assert forall|j: int| 0 <= j < d.take(k + 1).len() implies is_digit(
                    #[trigger] d.take(k + 1)[j],
                ) by {
                    if j < k {
                        assert(d.take(k + 1)[j] == d.take(k)[j]);
                    }
                }
            }
        }
        i = i + 1;
    }
    proof {
        assert(d.take(i - start) =~= d);
    }
    if overflow {
        None
    } else {
        Some(acc)
    }
}

/// What serde_json accepts as an array index inside a JSON Pointer: no `+`
/// sign, no leading zero (but `0` itself), otherwise as `str::parse`.
pub open spec fn pointer_index(t: Seq<char>) -> Option<usize> {
    if t.len() > 0 && (t[0] == '+' || (t[0] == '0' && t.len() != 1)) {
        None
    } else {
        parsed_usize(t)
    }
}

/// Parses an array index the way JSON Pointer lookup does.
pub fn parse_pointer_index(t: &Vec<char>) -> (r: Option<usize>)
    ensures
        r == pointer_index(t@),
{
    if t.len() > 0 && (t[0] == '+' || (t[0] == '0' && t.len() != 1)) {
        None
    } else {
        parse_usize(t)
    }
}

/// The mantissa (the part before any `e`/`E`) of a number's text holds a
/// digit other than `0`.
pub open spec fn has_nonzero_digit(t: Seq<char>) -> bool
    decreases t.len(),
{
    if t.len() == 0 {
        false
    } else if t[0] == 'e' || t[0] == 'E' {
        false
    } else if '1' <= t[0] && t[0] <= '9' {
        true
    } else {
        has_nonzero_digit(t.drop_first())
    }
}

/// Whether a number's text has a nonzero digit before its exponent.
pub fn chars_have_nonzero_digit(t: &Vec<char>) -> (r: bool)
    ensures
        r == has_nonzero_digit(t@),
{
    let mut i: usize = 0;
    proof {
        assert(t@.skip(0) =~= t@);
    }
    while i < t.len()
        invariant
            i <= t.len(),
            has_nonzero_digit(t@) == has_nonzero_digit(t@.skip(i as int)),
        decreases t.len() - i,
    {
        let c = t[i];
        proof {
            assert(t@.skip(i as int)[0] == c);
            assert(t@.skip(i as int).drop_first() =~= t@.skip(i + 1));
        }
        if c == 'e' || c == 'E' {
            return false;
        }
        if c >= '1' && c <= '9' {
            return true;
        }
        i = i + 1;
    }
    false
}

} // verus!
