//! Framing of incoming message streams: one JSON message per line
//! (newline-delimited JSON), blank lines skipped.

use vstd::prelude::*;

use crate::text::{chars_of, seqs_of, split_chars, split_on, string_of};

verus! {

/// Whether a character has the Unicode `White_Space` property
/// (PropList.txt): U+0009 to U+000D, U+0020, U+0085, U+00A0, U+1680,
/// U+2000 to U+200A, U+2028, U+2029, U+202F, U+205F and U+3000.
pub open spec fn white_space(c: char) -> bool {
    let n = c as u32;
    ||| 0x9 <= n <= 0xd
    ||| n == 0x20
    ||| n == 0x85
    ||| n == 0xa0
    ||| n == 0x1680
    ||| 0x2000 <= n <= 0x200a
    ||| n == 0x2028
    ||| n == 0x2029
    ||| n == 0x202f
    ||| n == 0x205f
    ||| n == 0x3000
}

/// Whether a character is whitespace (std `char::is_whitespace`).
///
/// The contract claims what std documents: the answer is whether the
/// character has the Unicode `White_Space` property, whose members
/// `white_space` lists.
#[verifier::external_body]
fn is_white_space(c: char) -> (r: bool)
    ensures
        r == white_space(c),
{
    c.is_whitespace()
}

/// `s` without its leading whitespace.
pub open spec fn trim_start_ws(s: Seq<char>) -> Seq<char>
    decreases s.len(),
{
    if s.len() > 0 && white_space(s[0]) {
        trim_start_ws(s.drop_first())
    } else {
        s
    }
}

/// `s` without its trailing whitespace.
pub open spec fn trim_end_ws(s: Seq<char>) -> Seq<char>
    decreases s.len(),
{
    if s.len() > 0 && white_space(s.last()) {
        trim_end_ws(s.drop_last())
    } else {
        s
    }
}

/// `s` without leading and trailing whitespace (`str::trim`).
pub open spec fn trim_ws(s: Seq<char>) -> Seq<char> {
    trim_end_ws(trim_start_ws(s))
}

/// The trimmed pieces that are not empty, in order.
pub open spec fn nonblank_lines(pieces: Seq<Seq<char>>) -> Seq<Seq<char>>
    decreases pieces.len(),
{
    if pieces.len() == 0 {
        Seq::empty()
    } else {
        let rest = nonblank_lines(pieces.drop_last());
        let t = trim_ws(pieces.last());
        if t.len() == 0 {
            rest
        } else {
            rest.push(t)
        }
    }
}

/// The messages of a payload: its lines (split at `\n`), each trimmed of
/// whitespace, blank ones left out.
pub open spec fn message_lines_spec(payload: Seq<char>) -> Seq<Seq<char>> {
    nonblank_lines(split_on(payload, '\n'))
}

/// Trims leading and trailing whitespace.
fn trim_chars(s: &Vec<char>) -> (r: Vec<char>)
    ensures
        r@ == trim_ws(s@),
{
    let mut i: usize = 0;
    proof {
        assert(s@.skip(0) =~= s@);
    }
    while i < s.len() && is_white_space(s[i])
        invariant
            i <= s@.len(),
            trim_start_ws(s@) == trim_start_ws(s@.skip(i as int)),
        decreases s.len() - i,
    {
        proof {
            assert(s@.skip(i as int)[0] == s@[i as int]);
            assert(s@.skip(i as int).drop_first() =~= s@.skip(i + 1));
        }
        i = i + 1;
    }
    proof {
        if i < s@.len() {
            assert(s@.skip(i as int)[0] == s@[i as int]);
        }
        assert(trim_start_ws(s@.skip(i as int)) == s@.skip(i as int));
    }
    let mut j: usize = s.len();
    proof {
        assert(s@.subrange(i as int, j as int) =~= s@.skip(i as int));
    }
    while j > i && is_white_space(s[j - 1])
        invariant
            i <= j <= s@.len(),
            trim_ws(s@) == trim_end_ws(s@.subrange(i as int, j as int)),
        decreases j,
    {
        proof {
            assert(s@.subrange(i as int, j as int).last() == s@[j - 1]);
            assert(s@.subrange(i as int, j as int).drop_last() =~= s@.subrange(i as int, j - 1));
        }
        j = j - 1;
    }
    proof {
        if j > i {
            assert(s@.subrange(i as int, j as int).last() == s@[j - 1]);
        }
        assert(trim_end_ws(s@.subrange(i as int, j as int)) == s@.subrange(i as int, j as int));
    }
    let mut r: Vec<char> = Vec::new();
    let mut k: usize = i;
    while k < j
        invariant
            i <= k <= j,
            j <= s@.len(),
            r@ == s@.subrange(i as int, k as int),
        decreases j - k,
    {
        proof {
            assert(s@.subrange(i as int, k + 1) =~= s@.subrange(i as int, k as int).push(
                s@[k as int],
            ));
        }
        r.push(s[k]);
        k = k + 1;
    }
    r
}

/// Splits a payload of newline-delimited messages into its messages: each
/// line trimmed of whitespace, blank lines skipped.
pub fn message_lines(payload: &str) -> (r: Vec<String>)
    ensures
        r.deep_view() == message_lines_spec(payload@),
{
    let cs = chars_of(payload);
    let pieces = split_chars(&cs, '\n');
    let ghost all = seqs_of(pieces@);
    let mut out: Vec<String> = Vec::new();
    let mut i: usize = 0;
    proof {
        assert(all.take(0) =~= Seq::<Seq<char>>::empty());
        assert(out.deep_view() =~= Seq::<Seq<char>>::empty());
    }
    while i < pieces.len()
        invariant
            i <= pieces@.len(),
            all == seqs_of(pieces@),
            all == split_on(payload@, '\n'),
            out.deep_view() == nonblank_lines(all.take(i as int)),
        decreases pieces.len() - i,
    {
        let t = trim_chars(&pieces[i]);
        proof {
            let tk = all.take(i + 1);
            assert(tk.drop_last() =~= all.take(i as int));
            assert(tk.last() == pieces@[i as int]@);
        }
        if t.len() > 0 {
            let line = string_of(&t);
            let ghost before = out.deep_view();
            out.push(line);
            proof {
                assert(out.deep_view() =~= before.push(t@));
            }
        }
        i = i + 1;
    }
    proof {
        assert(all.take(i as int) =~= all);
    }
    out
}

} // verus!
