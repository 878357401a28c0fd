//! JSON Pointer resolution (RFC 6901) with the A2UI relative path extension.
//!
//! A2UI paths can be:
//! - Absolute: `/foo/bar`, resolved from the data model root.
//! - Relative: `foo/bar`, resolved from the current data context base path.

use vstd::prelude::*;

use crate::json::{
    empty_object, items_view, lemma_items_view, lemma_items_view_push, obj_index, obj_insert, obj_lookup, obj_remove,
    lemma_obj_index_bounds, JsonObject, JsonValue, JsonView,
};
use crate::text::{
    chars_of, parse_pointer_index, pointer_index, replace_chars,
    replace_pair, seqs_of, split_chars, split_on, string_of, trim_end, trim_end_chars,
    lemma_split_on_nonempty,
};

verus! {

// ---------------------------------------------------------------------------
// The model
// ---------------------------------------------------------------------------

/// A reference token with its escapes undone: `~1` becomes `/`, then `~0`
/// becomes `~`.
pub open spec fn unescape(t: Seq<char>) -> Seq<char> {
    replace_pair(replace_pair(t, '~', '1', '/'), '~', '0', '~')
}

/// Following reference tokens from a value, the way serde_json's
/// `Value::pointer` does: an object by key, an array by a canonical index.
pub open spec fn pointer_get(v: JsonView, tokens: Seq<Seq<char>>) -> Option<JsonView>
    decreases tokens.len(),
{
    if tokens.len() == 0 {
        Some(v)
    } else {
        let t = unescape(tokens[0]);
        match v {
            JsonView::Object(es) => match obj_lookup(es, t) {
                Some(c) => pointer_get(c, tokens.drop_first()),
                None => None,
            },
            JsonView::Array(items) => match pointer_index(t) {
                Some(i) => if i < items.len() {
                    pointer_get(items[i as int], tokens.drop_first())
                } else {
                    None
                },
                None => None,
            },
            _ => None,
        }
    }
}

/// serde_json's `Value::pointer`: the empty pointer is the value itself; any
/// other pointer must start with `/` and is followed token by token.
pub open spec fn value_pointer(v: JsonView, p: Seq<char>) -> Option<JsonView> {
    if p.len() == 0 {
        Some(v)
    } else if p[0] != '/' {
        None
    } else {
        pointer_get(v, split_on(p, '/').drop_first())
    }
}

/// `p` is the empty path or `/`, both naming the root.
pub open spec fn is_root_path(p: Seq<char>) -> bool {
    p.len() == 0 || p == seq!['/']
}

/// What `resolve` gives: the root for `""` and `"/"`; otherwise the value at
/// the pointer, a path without a leading `/` getting one prepended.
pub open spec fn resolve_path(root: JsonView, p: Seq<char>) -> Option<JsonView> {
    if is_root_path(p) {
        Some(root)
    } else {
        value_pointer(
            root,
            if p[0] == '/' {
                p
            } else {
                seq!['/'] + p
            },
        )
    }
}

/// The tokens of a (non-root) path that `set_at_path` and `remove_at_path`
/// follow: the path without one leading `/`, split at every `/`.
pub open spec fn path_tokens(p: Seq<char>) -> Seq<Seq<char>> {
    split_on(
        if p.len() > 0 && p[0] == '/' {
            p.drop_first()
        } else {
            p
        },
        '/',
    )
}

/// `n` nulls.
pub open spec fn nulls(n: nat) -> Seq<JsonView> {
    Seq::new(n, |i: int| JsonView::Null)
}

/// The items extended with nulls to at least `n` of them.
pub open spec fn pad_nulls(items: Seq<JsonView>, n: int) -> Seq<JsonView> {
    if items.len() >= n {
        items
    } else {
        items + nulls((n - items.len()) as nat)
    }
}

/// The array index a token names at a value: none at an object, whose
/// members a token always names by key (RFC 6901); elsewhere the token read
/// as a JSON Pointer array index (digits, no sign, no leading zero).
pub open spec fn step_index(cur: JsonView, t: Seq<char>) -> Option<usize> {
    match cur {
        JsonView::Object(_) => None,
        _ => pointer_index(t),
    }
}

/// The value after setting `value` at the tokens, creating what is missing.
/// At an object a token names a member by key. Elsewhere a token that is an
/// array index indexes an array (a non-array becomes an empty array, which
/// grows with nulls up to the index); any other token keys an object (a
/// non-object becomes an empty object).
pub open spec fn set_tokens(cur: JsonView, tokens: Seq<Seq<char>>, value: JsonView) -> JsonView
    decreases tokens.len(),
{
    if tokens.len() == 0 {
        value
    } else {
        let t = unescape(tokens[0]);
        let rest = tokens.drop_first();
        match step_index(cur, t) {
            Some(i) => {
                let items = match cur {
                    JsonView::Array(a) => a,
                    _ => Seq::empty(),
                };
                let padded = pad_nulls(items, i + 1);
                JsonView::Array(padded.update(i as int, set_tokens(padded[i as int], rest, value)))
            },
            None => {
                let es = match cur {
                    JsonView::Object(es) => es,
                    _ => Seq::empty(),
                };
                let child = match obj_lookup(es, t) {
                    Some(c) => c,
                    None => JsonView::Null,
                };
                JsonView::Object(obj_insert(es, t, set_tokens(child, rest, value)))
            },
        }
    }
}

/// What `set_at_path` leaves: the value itself for a root path, otherwise
/// the root with the value set at the path's tokens.
pub open spec fn set_path(root: JsonView, p: Seq<char>, value: JsonView) -> JsonView {
    if is_root_path(p) {
        value
    } else {
        set_tokens(root, path_tokens(p), value)
    }
}

/// The value after removing what the tokens name, with what was removed.
/// Tokens are followed as lookup follows them: an object by key, an array by
/// an array index. The last token removes an object member or an array
/// element (shifting the rest down); a missing step removes nothing.
pub open spec fn remove_tokens(cur: JsonView, tokens: Seq<Seq<char>>) -> (JsonView, Option<
    JsonView,
>)
    decreases tokens.len(),
{
    if tokens.len() == 0 {
        (cur, None)
    } else {
        let t = unescape(tokens[0]);
        let rest = tokens.drop_first();
        match cur {
            JsonView::Object(es) => if tokens.len() == 1 {
                (JsonView::Object(obj_remove(es, t)), obj_lookup(es, t))
            } else {
                match obj_lookup(es, t) {
                    Some(c) => {
                        let (c2, r) = remove_tokens(c, rest);
                        (JsonView::Object(obj_insert(es, t, c2)), r)
                    },
                    None => (cur, None),
                }
            },
            JsonView::Array(items) => match pointer_index(t) {
                Some(i) => if i < items.len() {
                    if tokens.len() == 1 {
                        (JsonView::Array(items.remove(i as int)), Some(items[i as int]))
                    } else {
                        let (c2, r) = remove_tokens(items[i as int], rest);
                        (JsonView::Array(items.update(i as int, c2)), r)
                    }
                } else {
                    (cur, None)
                },
                None => (cur, None),
            },
            _ => (cur, None),
        }
    }
}

/// What `remove_at_path` leaves and returns: for a root path the root
/// becomes an empty object and the old root is returned.
pub open spec fn remove_path(root: JsonView, p: Seq<char>) -> (JsonView, Option<JsonView>) {
    if is_root_path(p) {
        (empty_object(), Some(root))
    } else {
        remove_tokens(root, path_tokens(p))
    }
}

/// What `make_absolute` gives: an absolute path as it is; otherwise the
/// path joined to the base path (without its trailing slashes) by `/`.
pub open spec fn absolute_path(path: Seq<char>, base: Seq<char>) -> Seq<char> {
    if path.len() > 0 && path[0] == '/' {
        path
    } else if base.len() == 0 {
        seq!['/'] + path
    } else {
        trim_end(base, '/') + seq!['/'] + path
    }
}

// ---------------------------------------------------------------------------
// The functions
// ---------------------------------------------------------------------------

/// Undoes the escapes of a reference token.
fn unescape_chars(t: &Vec<char>) -> (r: Vec<char>)
    ensures
        r@ == unescape(t@),
{
    let a = replace_chars(t, '~', '1', '/');
    replace_chars(&a, '~', '0', '~')
}

/// Unescape a single JSON Pointer token per RFC 6901.
pub fn unescape_token(token: &str) -> (r: String)
    ensures
        r@ == unescape(token@),
{
    let t = chars_of(token);
    let u = unescape_chars(&t);
    string_of(&u)
}

/// The characters after the first.
fn drop_first_char(p: &Vec<char>) -> (r: Vec<char>)
    requires
        p@.len() > 0,
    ensures
        r@ == p@.drop_first(),
{
    let mut r: Vec<char> = Vec::new();
    let mut i: usize = 1;
    while i < p.len()
        invariant
            1 <= i <= p@.len(),
            r@ == p@.subrange(1, i as int),
        decreases p.len() - i,
    {
        proof {
            assert(p@.subrange(1, i + 1) =~= p@.subrange(1, i as int).push(p@[i as int]));
        }
        r.push(p[i]);
        i = i + 1;
    }
    proof {
        assert(p@.subrange(1, i as int) =~= p@.drop_first());
    }
    r
}

/// serde_json's `Value::pointer`.
fn pointer_lookup<'a>(root: &'a JsonValue, p: &Vec<char>) -> (r: Option<&'a JsonValue>)
    ensures
        r.deep_view() == value_pointer(root@, p@),
{
    if p.len() == 0 {
        return Some(root);
    }
    if p[0] != '/' {
        return None;
    }
    let tokens = split_chars(p, '/');
    let ghost all = seqs_of(tokens@);
    let mut cur: &'a JsonValue = root;
    let mut k: usize = 1;
    proof {
        assert(all.skip(1) =~= all.drop_first());
    }
    while k < tokens.len()
        invariant
            1 <= k <= tokens@.len(),
            all == seqs_of(tokens@),
            all == split_on(p@, '/'),
            pointer_get(root@, all.drop_first()) == pointer_get(cur@, all.skip(k as int)),
        decreases tokens.len() - k,
    {
        let t = unescape_chars(&tokens[k]);
        let ghost rest = all.skip(k as int);
        proof {
            assert(rest[0] == tokens@[k as int]@);
            assert(rest.drop_first() =~= all.skip(k + 1));
        }
        match cur {
            JsonValue::Object(o) => {
                let i = o.find(&t);
                if i < o.len() {
                    cur = o.value_at(i);
                } else {
                    return None;
                }
            },
            JsonValue::Array(items) => {
                proof {
                    lemma_items_view(items@);
                }
                match parse_pointer_index(&t) {
                    Some(i) => {
                        if i < items.len() {
                            cur = &items[i];
                        } else {
                            return None;
                        }
                    },
                    None => {
                        return None;
                    },
                }
            },
            _ => {
                return None;
            },
        }
        k = k + 1;
    }
    proof {
        assert(all.skip(k as int).len() == 0);
    }
    Some(cur)
}

/// Resolve a JSON Pointer path against a JSON value.
///
/// Follows RFC 6901: tokens are separated by `/`, with `~0` for `~` and `~1`
/// for `/` escaping. `""` and `"/"` name the root; a path without a leading
/// `/` is taken as if it had one.
///
/// Returns `None` if the path does not exist in the value.
pub fn resolve(root: &JsonValue, pointer: &str) -> (r: Option<JsonValue>)
    ensures
        r.deep_view() == resolve_path(root@, pointer@),
{
    let p = chars_of(pointer);
    if p.len() == 0 || (p.len() == 1 && p[0] == '/') {
        proof {
            if p.len() == 1 {
                assert(p@ =~= seq!['/']);
            }
        }
        return Some(root.deep_clone());
    }
    proof {
        assert(p@ != seq!['/']);
    }
    let normalized = if p[0] == '/' {
        p
    } else {
        let mut q: Vec<char> = Vec::new();
        q.push('/');
        let mut i: usize = 0;
        while i < p.len()
            invariant
                i <= p@.len(),
                q@ == seq!['/'] + p@.take(i as int),
            decreases p.len() - i,
        {
            proof {
                assert(p@.take(i + 1) =~= p@.take(i as int).push(p@[i as int]));
                assert(seq!['/'] + p@.take(i + 1) =~= (seq!['/'] + p@.take(i as int)).push(
                    p@[i as int],
                ));
            }
            q.push(p[i]);
            i = i + 1;
        }
        proof {
            assert(p@.take(i as int) =~= p@);
        }
        q
    };
    match pointer_lookup(root, &normalized) {
        Some(v) => Some(v.deep_clone()),
        None => None,
    }
}

/// Set a value at the given JSON Pointer path, creating intermediate
/// objects/arrays as needed (auto-vivification).
///
/// `""` and `"/"` replace the whole root. At an existing object a token names
/// a member by key (RFC 6901), numeric or not. Elsewhere an array index
/// token (digits with no sign and no leading zero) makes or grows an array;
/// any other token, `01` and `+1` among them, names an object member, a
/// non-object there becoming an empty object.
pub fn set_at_path(root: &mut JsonValue, path: &str, value: JsonValue)
    ensures
        final(root)@ == set_path(old(root)@, path@, value@),
{
    let p = chars_of(path);
    if p.len() == 0 || (p.len() == 1 && p[0] == '/') {
        proof {
            if p.len() == 1 {
                assert(p@ =~= seq!['/']);
            }
        }
        *root = value;
        return ;
    }
    proof {
        assert(p@ != seq!['/']);
    }
    let rest = if p[0] == '/' {
        drop_first_char(&p)
    } else {
        p
    };
    let tokens = split_chars(&rest, '/');
    proof {
        assert(seqs_of(tokens@).skip(0) =~= seqs_of(tokens@));
    }
    set_recursive(root, &tokens, 0, value);
}

fn set_recursive(current: &mut JsonValue, tokens: &Vec<Vec<char>>, k: usize, value: JsonValue)
    requires
        k <= tokens@.len(),
    ensures
        final(current)@ == set_tokens(old(current)@, seqs_of(tokens@).skip(k as int), value@),
    decreases tokens@.len() - k,
{
    let ghost toks = seqs_of(tokens@).skip(k as int);
    if k == tokens.len() {
        proof {
            assert(toks.len() == 0);
        }
        *current = value;
        return ;
    }
    proof {
        assert(toks[0] == tokens@[k as int]@);
        assert(toks.drop_first() =~= seqs_of(tokens@).skip(k + 1));
    }
    let token = unescape_chars(&tokens[k]);
    let mut cur = JsonValue::Null;
    std::mem::swap(&mut cur, current);
    let ghost cur0 = cur@;
    let step = match &cur {
        JsonValue::Object(_) => None,
        _ => parse_pointer_index(&token),
    };
    proof {
        assert(step == step_index(cur0, token@));
    }
    match step {
        Some(index) => {
            let mut arr: Vec<JsonValue> = match cur {
                JsonValue::Array(a) => a,
                _ => Vec::new(),
            };
            let ghost items0: Seq<JsonView> = match cur0 {
                JsonView::Array(a) => a,
                _ => Seq::empty(),
            };
            proof {
                lemma_items_view(arr@);
                assert(items_view(arr@) == items0) by {
                    if !(cur0 is Array) {
                        assert(arr@ =~= Seq::<JsonValue>::empty());
                        assert(items_view(arr@) =~= Seq::<JsonView>::empty());
                    }
                }
            }
            while arr.len() <= index
                invariant
                    items0.len() <= arr@.len(),
                    arr@.len() <= index + 1 || arr@.len() == items0.len(),
                    items_view(arr@) == pad_nulls(items0, arr@.len() as int),
                decreases index + 1 - arr@.len(),
            {
                proof {
                    lemma_items_view_push(arr@, JsonValue::Null);
                    assert(pad_nulls(items0, arr@.len() + 1int) =~= pad_nulls(
                        items0,
                        arr@.len() as int,
                    ).push(JsonView::Null));
                }
                arr.push(JsonValue::Null);
            }
            let ghost padded = items_view(arr@);
            proof {
                assert(padded == pad_nulls(items0, index + 1)) by {
                    if items0.len() >= index + 1 {
                        assert(pad_nulls(items0, arr@.len() as int) == items0);
                    }
                }
                lemma_items_view(arr@);
            }
            let mut child = JsonValue::Null;
            arr.set_and_swap(index, &mut child);
            set_recursive(&mut child, tokens, k + 1, value);
            let ghost new_child = child@;
            arr.set_and_swap(index, &mut child);
            proof {
                lemma_items_view(arr@);
                assert(items_view(arr@) =~= padded.update(index as int, new_child));
            }
            *current = JsonValue::Array(arr);
        },
        None => {
            let mut obj: JsonObject = match cur {
                JsonValue::Object(o) => o,
                _ => JsonObject::new(),
            };
            let ghost es0: Seq<(Seq<char>, JsonView)> = match cur0 {
                JsonView::Object(es) => es,
                _ => Seq::empty(),
            };
            proof {
                assert(obj@ == es0) by {
                    if !(cur0 is Object) {
                        assert(obj@ =~= es0);
                    }
                }
                lemma_obj_index_bounds(es0, token@);
            }
            let i = obj.find(&token);
            if i < obj.len() {
                let mut child = obj.replace_value_at(i, JsonValue::Null);
                set_recursive(&mut child, tokens, k + 1, value);
                let _ = obj.replace_value_at(i, child);
                proof {
                    assert(obj@ =~= obj_insert(es0, token@, set_tokens(es0[i as int].1, toks.drop_first(), value@)));
                }
            } else {
                let mut child = JsonValue::Null;
                set_recursive(&mut child, tokens, k + 1, value);
                let key = string_of(&token);
                let _ = obj.insert(key, child);
            }
            *current = JsonValue::Object(obj);
        },
    }
}

/// Remove a value at the given JSON Pointer path.
///
/// `""` and `"/"` empty the root (it becomes `{}`) and return the old root.
/// Tokens are followed as `resolve` follows them: at an object a token names
/// a member by key, numeric or not; at an array only an index token (digits
/// with no sign and no leading zero, so not `01` or `+1`) names an element.
/// Returns the removed value, if any.
pub fn remove_at_path(root: &mut JsonValue, path: &str) -> (r: Option<JsonValue>)
    ensures
        final(root)@ == remove_path(old(root)@, path@).0,
        r.deep_view() == remove_path(old(root)@, path@).1,
{
    let p = chars_of(path);
    if p.len() == 0 || (p.len() == 1 && p[0] == '/') {
        proof {
            if p.len() == 1 {
                assert(p@ =~= seq!['/']);
            }
        }
        let old = root.deep_clone();
        *root = JsonValue::new_object();
        return Some(old);
    }
    proof {
        assert(p@ != seq!['/']);
    }
    let rest = if p[0] == '/' {
        drop_first_char(&p)
    } else {
        p
    };
    let tokens = split_chars(&rest, '/');
    proof {
        assert(seqs_of(tokens@).skip(0) =~= seqs_of(tokens@));
    }
    remove_recursive(root, &tokens, 0)
}

fn remove_recursive(current: &mut JsonValue, tokens: &Vec<Vec<char>>, k: usize) -> (r: Option<
    JsonValue,
>)
    requires
        k < tokens@.len(),
    ensures
        final(current)@ == remove_tokens(old(current)@, seqs_of(tokens@).skip(k as int)).0,
        r.deep_view() == remove_tokens(old(current)@, seqs_of(tokens@).skip(k as int)).1,
    decreases tokens@.len() - k,
{
    let ghost toks = seqs_of(tokens@).skip(k as int);
    proof {
        assert(toks[0] == tokens@[k as int]@);
        assert(toks.drop_first() =~= seqs_of(tokens@).skip(k + 1));
    }
    let token = unescape_chars(&tokens[k]);
    let n = tokens.len();
    let last = k == n - 1;
    match current {
        JsonValue::Object(obj) => {
            let ghost es0 = obj@;
            proof {
                lemma_obj_index_bounds(es0, token@);
            }
            if last {
                let key = string_of(&token);
                obj.remove(key.as_str())
            } else {
                let i = obj.find(&token);
                if i < obj.len() {
                    let mut child = obj.replace_value_at(i, JsonValue::Null);
                    let r = remove_recursive(&mut child, tokens, k + 1);
                    let _ = obj.replace_value_at(i, child);
                    proof {
                        assert(obj@ =~= obj_insert(es0, token@, remove_tokens(es0[i as int].1, toks.drop_first()).0));
                    }
                    r
                } else {
                    None
                }
            }
        },
        JsonValue::Array(arr) => {
            proof {
                lemma_items_view(arr@);
            }
            match parse_pointer_index(&token) {
                Some(index) => {
                    if index < arr.len() {
                        if last {
                            let ghost old_arr = arr@;
                            let removed = arr.remove(index);
                            proof {
                                lemma_items_view(arr@);
                                assert(items_view(arr@) =~= items_view(old_arr).remove(index as int));
                            }
                            Some(removed)
                        } else {
                            let ghost old_arr = arr@;
                            let mut child = JsonValue::Null;
                            arr.set_and_swap(index, &mut child);
                            let r = remove_recursive(&mut child, tokens, k + 1);
                            let ghost new_child = child@;
                            arr.set_and_swap(index, &mut child);
                            proof {
                                lemma_items_view(arr@);
                                assert(items_view(arr@) =~= items_view(old_arr).update(index as int, new_child));
                            }
                            r
                        }
                    } else {
                        None
                    }
                },
                None => None,
            }
        },
        _ => None,
    }
}

/// Make an absolute path from a possibly-relative path and a base path.
///
/// - If `path` starts with `/`, it's already absolute: returned as-is.
/// - Otherwise, join with `base_path` (without its trailing slashes).
pub fn make_absolute(path: &str, base_path: &str) -> (r: String)
    ensures
        r@ == absolute_path(path@, base_path@),
{
    let p = chars_of(path);
    if p.len() > 0 && p[0] == '/' {
        return string_of(&p);
    }
    let b = chars_of(base_path);
    let mut out: Vec<char> = if b.len() == 0 {
        Vec::new()
    } else {
        trim_end_chars(&b, '/')
    };
    let ghost head = out@;
    out.push('/');
    let mut i: usize = 0;
    while i < p.len()
        invariant
            i <= p@.len(),
            out@ == head.push('/') + p@.take(i as int),
        decreases p.len() - i,
    {
        proof {
            assert(p@.take(i + 1) =~= p@.take(i as int).push(p@[i as int]));
            assert(head.push('/') + p@.take(i + 1) =~= (head.push('/') + p@.take(i as int)).push(
                p@[i as int],
            ));
        }
        out.push(p[i]);
        i = i + 1;
    }
    proof {
        assert(p@.take(i as int) =~= p@);
        if b@.len() == 0 {
            assert(head.push('/') + p@ =~= seq!['/'] + p@);
        } else {
            assert(head.push('/') + p@ =~= trim_end(base_path@, '/') + seq!['/'] + p@);
        }
    }
    string_of(&out)
}

} // verus!

verus! {

// ---------------------------------------------------------------------------
// Laws
// ---------------------------------------------------------------------------

/// Splitting a sequence that starts with the separator gives an empty piece
/// first, then the pieces of the rest.
pub proof fn lemma_split_leading(q: Seq<char>, sep: char)
    ensures
        split_on(seq![sep] + q, sep) == seq![Seq::<char>::empty()] + split_on(q, sep),
    decreases q.len(),
{
    let s = seq![sep] + q;
    if q.len() == 0 {
        assert(s.drop_last() =~= Seq::<char>::empty());
        assert(split_on(Seq::<char>::empty(), sep) == seq![Seq::<char>::empty()]);
        assert(q =~= Seq::<char>::empty());
        assert(split_on(s, sep) =~= seq![Seq::<char>::empty()] + split_on(q, sep));
    } else {
        assert(s.drop_last() =~= seq![sep] + q.drop_last());
        assert(s.last() == q.last());
        lemma_split_leading(q.drop_last(), sep);
        lemma_split_on_nonempty(q.drop_last(), sep);
        let x = split_on(q.drop_last(), sep);
        if q.last() == sep {
            assert(split_on(s, sep) =~= seq![Seq::<char>::empty()] + split_on(q, sep));
        } else {
            assert((seq![Seq::<char>::empty()] + x).update(
                x.len() as int,
                (seq![Seq::<char>::empty()] + x).last().push(q.last()),
            ) =~= seq![Seq::<char>::empty()] + x.update(x.len() - 1, x.last().push(q.last())));
            assert(split_on(s, sep) =~= seq![Seq::<char>::empty()] + split_on(q, sep));
        }
    }
}

/// The tokens that lookup follows for a path are those that `set_at_path`
/// and `remove_at_path` follow.
pub proof fn lemma_lookup_tokens(p: Seq<char>)
    requires
        !is_root_path(p),
    ensures
        split_on(
            if p[0] == '/' {
                p
            } else {
                seq!['/'] + p
            },
            '/',
        ).drop_first() == path_tokens(p),
{
    if p[0] == '/' {
        assert(p =~= seq!['/'] + p.drop_first());
        lemma_split_leading(p.drop_first(), '/');
        assert((seq![Seq::<char>::empty()] + split_on(p.drop_first(), '/')).drop_first() =~= split_on(
            p.drop_first(),
            '/',
        ));
    } else {
        lemma_split_leading(p, '/');
        assert((seq![Seq::<char>::empty()] + split_on(p, '/')).drop_first() =~= split_on(p, '/'));
    }
}

/// Following the tokens of a write finds what was written.
pub proof fn lemma_get_after_set(cur: JsonView, toks: Seq<Seq<char>>, v: JsonView)
    ensures
        pointer_get(set_tokens(cur, toks, v), toks) == Some(v),
    decreases toks.len(),
{
    if toks.len() > 0 {
        let t = unescape(toks[0]);
        let rest = toks.drop_first();
        match step_index(cur, t) {
            Some(i) => {
                let items = match cur {
                    JsonView::Array(a) => a,
                    _ => Seq::empty(),
                };
                let padded = pad_nulls(items, i + 1);
                lemma_get_after_set(padded[i as int], rest, v);
            },
            None => {
                let es = match cur {
                    JsonView::Object(es) => es,
                    _ => Seq::empty(),
                };
                let child = match obj_lookup(es, t) {
                    Some(c) => c,
                    None => JsonView::Null,
                };
                crate::json::lemma_obj_insert_lookup(es, t, set_tokens(child, rest, v));
                lemma_get_after_set(child, rest, v);
            },
        }
    }
}

/// Read after write: after `set_at_path(root, p, v)`, `resolve(root, p)`
/// gives `v`, for every path.
pub proof fn law_resolve_after_set(root: JsonView, p: Seq<char>, v: JsonView)
    ensures
        resolve_path(set_path(root, p, v), p) == Some(v),
{
    if !is_root_path(p) {
        lemma_lookup_tokens(p);
        lemma_get_after_set(root, path_tokens(p), v);
    }
}

/// A write under one key of an object leaves what lies under any other key.
pub proof fn law_set_keeps_other_keys(
    es: Seq<(Seq<char>, JsonView)>,
    p: Seq<char>,
    q: Seq<char>,
    v: JsonView,
)
    requires
        !is_root_path(p),
        !is_root_path(q),
        unescape(path_tokens(p)[0]) != unescape(path_tokens(q)[0]),
    ensures
        resolve_path(set_path(JsonView::Object(es), p, v), q) == resolve_path(
            JsonView::Object(es),
            q,
        ),
{
    let tp = path_tokens(p);
    let tq = path_tokens(q);
    crate::text::lemma_split_on_nonempty(
        if p.len() > 0 && p[0] == '/' {
            p.drop_first()
        } else {
            p
        },
        '/',
    );
    crate::text::lemma_split_on_nonempty(
        if q.len() > 0 && q[0] == '/' {
            q.drop_first()
        } else {
            q
        },
        '/',
    );
    lemma_lookup_tokens(q);
    let k = unescape(tp[0]);
    let child = match obj_lookup(es, k) {
        Some(c) => c,
        None => JsonView::Null,
    };
    crate::json::lemma_obj_insert_other(es, k, set_tokens(child, tp.drop_first(), v), unescape(tq[0]));
}

/// In well-formed values, what lies below a member or an element is
/// well-formed too.
proof fn lemma_wf_object_member(es: Seq<(Seq<char>, JsonView)>, k: Seq<char>)
    requires
        crate::json::json_wf(JsonView::Object(es)),
        obj_lookup(es, k) is Some,
    ensures
        crate::json::json_wf(obj_lookup(es, k)->0),
        crate::json::keys_sorted(es),
{
    lemma_obj_index_bounds(es, k);
    let i = obj_index(es, k);
    assert(crate::json::json_wf(es[i].1));
}

/// A container without what token `t` names in it: an object without the
/// member with key `t`; an array without the element at index `t`, the later
/// elements shifted down; anything else as it is.
pub open spec fn remove_member(c: JsonView, t: Seq<char>) -> JsonView {
    match c {
        JsonView::Object(es) => JsonView::Object(obj_remove(es, t)),
        JsonView::Array(items) => match pointer_index(t) {
            Some(i) => if i < items.len() {
                JsonView::Array(items.remove(i as int))
            } else {
                c
            },
            None => c,
        },
        _ => c,
    }
}

/// Setting a member to the value it has changes nothing.
proof fn lemma_obj_insert_same(es: Seq<(Seq<char>, JsonView)>, k: Seq<char>)
    requires
        obj_lookup(es, k) is Some,
    ensures
        obj_insert(es, k, obj_lookup(es, k)->0) == es,
{
    lemma_obj_index_bounds(es, k);
    let i = obj_index(es, k);
    assert(es.update(i, (k, es[i].1)) =~= es);
}

/// Following all tokens is following all but the last, then the last.
pub proof fn lemma_pointer_get_last(v: JsonView, toks: Seq<Seq<char>>)
    requires
        toks.len() > 0,
    ensures
        pointer_get(v, toks) == match pointer_get(v, toks.drop_last()) {
            Some(c) => pointer_get(c, seq![toks.last()]),
            None => None,
        },
    decreases toks.len(),
{
    if toks.len() > 1 {
        let rest = toks.drop_first();
        assert(toks.drop_last().drop_first() =~= rest.drop_last());
        assert(toks.drop_last()[0] == toks[0]);
        assert(rest.last() == toks.last());
        match v {
            JsonView::Object(es) => match obj_lookup(es, unescape(toks[0])) {
                Some(c) => lemma_pointer_get_last(c, rest),
                None => {},
            },
            JsonView::Array(items) => match pointer_index(unescape(toks[0])) {
                Some(i) => if i < items.len() {
                    lemma_pointer_get_last(items[i as int], rest);
                },
                None => {},
            },
            _ => {},
        }
    } else {
        assert(toks.drop_last().len() == 0);
        assert(toks =~= seq![toks.last()]);
    }
}

/// Removing along tokens returns what following them finds. When nothing is
/// found, nothing changes; otherwise the result is the value with the
/// container that held it replaced by that container without it.
pub proof fn lemma_remove_tokens(cur: JsonView, toks: Seq<Seq<char>>)
    requires
        toks.len() > 0,
    ensures
        remove_tokens(cur, toks).1 == pointer_get(cur, toks),
        remove_tokens(cur, toks).1 is None ==> remove_tokens(cur, toks).0 == cur,
        remove_tokens(cur, toks).1 is Some ==> {
            &&& pointer_get(cur, toks.drop_last()) is Some
            &&& remove_tokens(cur, toks).0 == set_tokens(
                cur,
                toks.drop_last(),
                remove_member(pointer_get(cur, toks.drop_last())->0, unescape(toks.last())),
            )
        },
    decreases toks.len(),
{
    let t = unescape(toks[0]);
    let rest = toks.drop_first();
    if toks.len() == 1 {
        assert(toks.drop_last().len() == 0);
        assert(toks.last() == toks[0]);
        match cur {
            JsonView::Object(es) => {
                lemma_obj_index_bounds(es, t);
                if obj_lookup(es, t) is None {
                    assert(obj_remove(es, t) == es);
                }
            },
            _ => {},
        }
    } else {
        assert(toks.drop_last().drop_first() =~= rest.drop_last());
        assert(toks.drop_last()[0] == toks[0]);
        assert(rest.last() == toks.last());
        assert(toks.drop_last().len() > 0);
        match cur {
            JsonView::Object(es) => match obj_lookup(es, t) {
                Some(c) => {
                    lemma_remove_tokens(c, rest);
                    if remove_tokens(c, rest).1 is None {
                        lemma_obj_insert_same(es, t);
                    }
                },
                None => {},
            },
            JsonView::Array(items) => match pointer_index(t) {
                Some(i) => if i < items.len() {
                    lemma_remove_tokens(items[i as int], rest);
                    assert(pad_nulls(items, i + 1) == items);
                    if remove_tokens(items[i as int], rest).1 is None {
                        assert(items.update(i as int, items[i as int]) =~= items);
                    }
                },
                None => {},
            },
            _ => {},
        }
    }
}

/// Remove: `remove_at_path` returns what `resolve` finds at the path; when
/// it finds nothing the value is unchanged; otherwise the value is the old
/// one with the container at the parent path replaced by that container
/// without the member (an object member removed, or an array element
/// removed with the later ones shifted down).
pub proof fn law_remove_at_path(root: JsonView, p: Seq<char>)
    requires
        !is_root_path(p),
    ensures
        remove_path(root, p).1 == resolve_path(root, p),
        remove_path(root, p).1 is None ==> remove_path(root, p).0 == root,
        remove_path(root, p).1 is Some ==> {
            let toks = path_tokens(p);
            &&& pointer_get(root, toks.drop_last()) is Some
            &&& remove_path(root, p).0 == set_tokens(
                root,
                toks.drop_last(),
                remove_member(pointer_get(root, toks.drop_last())->0, unescape(toks.last())),
            )
        },
{
    lemma_lookup_tokens(p);
    crate::text::lemma_split_on_nonempty(
        if p.len() > 0 && p[0] == '/' {
            p.drop_first()
        } else {
            p
        },
        '/',
    );
    lemma_remove_tokens(root, path_tokens(p));
}

/// What following tokens finds in a well-formed value is well-formed.
proof fn lemma_pointer_get_wf(v: JsonView, toks: Seq<Seq<char>>)
    requires
        crate::json::json_wf(v),
        pointer_get(v, toks) is Some,
    ensures
        crate::json::json_wf(pointer_get(v, toks)->0),
    decreases toks.len(),
{
    if toks.len() > 0 {
        let t = unescape(toks[0]);
        match v {
            JsonView::Object(es) => {
                lemma_wf_object_member(es, t);
                lemma_pointer_get_wf(obj_lookup(es, t)->0, toks.drop_first());
            },
            JsonView::Array(items) => {
                let i = pointer_index(t)->0;
                assert(crate::json::json_wf(items[i as int]));
                lemma_pointer_get_wf(items[i as int], toks.drop_first());
            },
            _ => {},
        }
    }
}

/// Removing an object member: in a well-formed value, after removing at a
/// path whose parent is an object, nothing is found at the path.
pub proof fn law_remove_member_then_resolve(root: JsonView, p: Seq<char>)
    requires
        !is_root_path(p),
        crate::json::json_wf(root),
        pointer_get(root, path_tokens(p).drop_last()) matches Some(JsonView::Object(_)),
    ensures
        resolve_path(remove_path(root, p).0, p) is None,
{
    law_remove_at_path(root, p);
    lemma_lookup_tokens(p);
    let toks = path_tokens(p);
    let parent = toks.drop_last();
    if remove_path(root, p).1 is Some {
        let c = pointer_get(root, parent)->0;
        let es = c->Object_0;
        let k = unescape(toks.last());
        lemma_pointer_get_wf(root, parent);
        lemma_get_after_set(root, parent, remove_member(c, k));
        lemma_pointer_get_last(remove_path(root, p).0, toks);
        crate::json::lemma_obj_remove_lookup(es, k);
    }
}

/// The root paths `""` and `"/"` both resolve to the whole value.
pub proof fn law_root_paths(root: JsonView)
    ensures
        resolve_path(root, Seq::empty()) == Some(root),
        resolve_path(root, seq!['/']) == Some(root),
{
}

/// Joined to an empty or absolute base, every path becomes absolute; an
/// absolute path is never changed.
pub proof fn law_make_absolute(path: Seq<char>, base: Seq<char>)
    requires
        base.len() == 0 || base[0] == '/',
    ensures
        absolute_path(path, base).len() > 0,
        absolute_path(path, base)[0] == '/',
        path.len() > 0 && path[0] == '/' ==> absolute_path(path, base) == path,
{
    if !(path.len() > 0 && path[0] == '/') && base.len() > 0 {
        lemma_trim_end_prefix(base, '/');
    }
}

/// Trimming the end keeps the first character unless everything goes.
proof fn lemma_trim_end_prefix(s: Seq<char>, c: char)
    requires
        s.len() > 0,
    ensures
        trim_end(s, c).len() == 0 || trim_end(s, c)[0] == s[0],
        trim_end(s, c).len() <= s.len(),
    decreases s.len(),
{
    if s.last() == c && s.len() > 1 {
        lemma_trim_end_prefix(s.drop_last(), c);
        assert(s.drop_last()[0] == s[0]);
        assert(trim_end(s, c) == trim_end(s.drop_last(), c));
    } else if s.last() == c {
        assert(s.drop_last().len() == 0);
        assert(trim_end(s, c) == trim_end(s.drop_last(), c));
        assert(trim_end(s.drop_last(), c) == s.drop_last());
    } else {
        assert(trim_end(s, c) == s);
    }
}

} // verus!

verus! {

/// Nulls and padded items are well-formed when the items are.
proof fn lemma_pad_wf(items: Seq<JsonView>, n: int)
    requires
        forall|i: int| 0 <= i < items.len() ==> crate::json::json_wf(#[trigger] items[i]),
    ensures
        forall|i: int|
            0 <= i < pad_nulls(items, n).len() ==> crate::json::json_wf(#[trigger] pad_nulls(items, n)[i]),
{
    assert forall|i: int| 0 <= i < pad_nulls(items, n).len() implies crate::json::json_wf(
        #[trigger] pad_nulls(items, n)[i],
    ) by {
        if i >= items.len() {
            assert(pad_nulls(items, n)[i] == JsonView::Null);
        } else {
            assert(pad_nulls(items, n)[i] == items[i]);
        }
    }
}

/// Setting a member keeps the members' values well-formed.
proof fn lemma_obj_insert_members_wf(es: Seq<(Seq<char>, JsonView)>, k: Seq<char>, v: JsonView)
    requires
        forall|i: int| 0 <= i < es.len() ==> crate::json::json_wf(#[trigger] es[i].1),
        crate::json::json_wf(v),
    ensures
        forall|i: int|
            0 <= i < obj_insert(es, k, v).len() ==> crate::json::json_wf(
                #[trigger] obj_insert(es, k, v)[i].1,
            ),
{
    lemma_obj_index_bounds(es, k);
    let es2 = obj_insert(es, k, v);
    let i0 = obj_index(es, k);
    if i0 < es.len() {
        assert forall|i: int| 0 <= i < es2.len() implies crate::json::json_wf(#[trigger] es2[i].1) by {
            if i != i0 {
                assert(es2[i] == es[i]);
            }
        }
    } else {
        let p = crate::json::insert_pos(es, k);
        crate::json::lemma_insert_pos_bounds(es, k);
        assert forall|i: int| 0 <= i < es2.len() implies crate::json::json_wf(#[trigger] es2[i].1) by {
            if i < p {
                assert(es2[i] == es[i]);
            } else if i > p {
                assert(es2[i] == es[i - 1]);
            }
        }
    }
}

/// Writing keeps values well-formed: every object stays sorted by key.
pub proof fn lemma_set_tokens_wf(cur: JsonView, toks: Seq<Seq<char>>, v: JsonView)
    requires
        crate::json::json_wf(cur),
        crate::json::json_wf(v),
    ensures
        crate::json::json_wf(set_tokens(cur, toks, v)),
    decreases toks.len(),
{
    if toks.len() > 0 {
        let t = unescape(toks[0]);
        let rest = toks.drop_first();
        match step_index(cur, t) {
            Some(i) => {
                let items: Seq<JsonView> = match cur {
                    JsonView::Array(a) => a,
                    _ => Seq::empty(),
                };
                lemma_pad_wf(items, i + 1);
                let padded = pad_nulls(items, i + 1);
                lemma_set_tokens_wf(padded[i as int], rest, v);
                let out = padded.update(i as int, set_tokens(padded[i as int], rest, v));
                assert forall|j: int| 0 <= j < out.len() implies crate::json::json_wf(#[trigger] out[j]) by {
                    if j != i {
                        assert(out[j] == padded[j]);
                    }
                }
            },
            None => {
                let es: Seq<(Seq<char>, JsonView)> = match cur {
                    JsonView::Object(es) => es,
                    _ => Seq::empty(),
                };
                let child = match obj_lookup(es, t) {
                    Some(c) => c,
                    None => JsonView::Null,
                };
                if obj_lookup(es, t) is Some {
                    lemma_obj_index_bounds(es, t);
                    assert(crate::json::json_wf(es[obj_index(es, t)].1));
                }
                lemma_set_tokens_wf(child, rest, v);
                crate::json::lemma_obj_insert_sorted(es, t, set_tokens(child, rest, v));
                lemma_obj_insert_members_wf(es, t, set_tokens(child, rest, v));
            },
        }
    }
}

/// Every write keeps the data well-formed: objects stay sorted by key.
pub proof fn law_set_keeps_wf(root: JsonView, p: Seq<char>, v: JsonView)
    requires
        crate::json::json_wf(root),
        crate::json::json_wf(v),
    ensures
        crate::json::json_wf(set_path(root, p, v)),
{
    if !is_root_path(p) {
        lemma_set_tokens_wf(root, path_tokens(p), v);
    }
}

} // verus!

verus! {

// ---------------------------------------------------------------------------
// Locality: a write or a removal leaves what lies elsewhere
// ---------------------------------------------------------------------------

/// Removing a member leaves the other keys as they were.
proof fn lemma_obj_remove_other(es: Seq<(Seq<char>, JsonView)>, k: Seq<char>, k2: Seq<char>)
    requires
        k2 != k,
    ensures
        obj_lookup(obj_remove(es, k), k2) == obj_lookup(es, k2),
{
    lemma_obj_index_bounds(es, k);
    lemma_obj_index_bounds(es, k2);
    let i = obj_index(es, k);
    let i2 = obj_index(es, k2);
    if i < es.len() {
        let es2 = es.remove(i);
        if i2 < i {
            assert forall|j: int| 0 <= j < i2 implies #[trigger] es2[j].0 != k2 by {
                assert(es2[j] == es[j]);
            }
            assert(es2[i2] == es[i2]);
            crate::json::lemma_obj_index(es2, k2, i2);
        } else if i2 == es.len() {
            assert forall|j: int| 0 <= j < es2.len() implies #[trigger] es2[j].0 != k2 by {
                if j < i {
                    assert(es2[j] == es[j]);
                } else {
                    assert(es2[j] == es[j + 1]);
                }
            }
            crate::json::lemma_obj_index(es2, k2, es2.len() as int);
        } else {
            assert(i2 != i);
            assert forall|j: int| 0 <= j < i2 - 1 implies #[trigger] es2[j].0 != k2 by {
                if j < i {
                    assert(es2[j] == es[j]);
                } else {
                    assert(es2[j] == es[j + 1]);
                }
            }
            assert(es2[i2 - 1] == es[i2]);
            crate::json::lemma_obj_index(es2, k2, i2 - 1);
        }
    }
}

/// Token sequences `a` and `b` part at position `j`: they name the same
/// steps (after unescaping) before it and different ones at it, so neither
/// path lies at or under the other.
pub open spec fn part_at(a: Seq<Seq<char>>, b: Seq<Seq<char>>, j: int) -> bool {
    &&& 0 <= j < a.len()
    &&& j < b.len()
    &&& forall|k: int| 0 <= k < j ==> unescape(#[trigger] a[k]) == unescape(b[k])
    &&& unescape(a[j]) != unescape(b[j])
}

/// Following the tokens of `b` after the first.
proof fn lemma_part_at_rest(a: Seq<Seq<char>>, b: Seq<Seq<char>>, j: int)
    requires
        part_at(a, b, j),
        j > 0,
    ensures
        part_at(a.drop_first(), b.drop_first(), j - 1),
        unescape(a[0]) == unescape(b[0]),
        b.take(j).drop_first() == b.drop_first().take(j - 1),
        b.take(j)[0] == b[0],
{
    assert(unescape(a[0]) == unescape(b[0]));
    assert forall|k: int| 0 <= k < j - 1 implies unescape(#[trigger] a.drop_first()[k]) == unescape(
        b.drop_first()[k],
    ) by {
        assert(a.drop_first()[k] == a[k + 1]);
        assert(b.drop_first()[k] == b[k + 1]);
        assert(unescape(a[k + 1]) == unescape(b[k + 1]));
    }
    assert(b.take(j).drop_first() =~= b.drop_first().take(j - 1));
}

/// A write along `tp` leaves what lies along `tq`, when the two part and
/// the write does not replace an array where they part.
proof fn lemma_set_elsewhere(cur: JsonView, tp: Seq<Seq<char>>, tq: Seq<Seq<char>>, j: int, v: JsonView)
    requires
        part_at(tp, tq, j),
        pointer_get(cur, tq) is Some,
        pointer_get(cur, tq.take(j)) matches Some(JsonView::Array(_)) ==> pointer_index(
            unescape(tp[j]),
        ) is Some,
    ensures
        pointer_get(set_tokens(cur, tp, v), tq) == pointer_get(cur, tq),
    decreases j,
{
    let t = unescape(tp[0]);
    let u = unescape(tq[0]);
    if j == 0 {
        assert(tq.take(0) =~= Seq::<Seq<char>>::empty());
        match cur {
            JsonView::Object(es) => {
                let child = match obj_lookup(es, t) {
                    Some(c) => c,
                    None => JsonView::Null,
                };
                crate::json::lemma_obj_insert_other(es, t, set_tokens(child, tp.drop_first(), v), u);
            },
            JsonView::Array(items) => {
                let ip = pointer_index(t)->0;
                let iq = pointer_index(u)->0;
                if ip == iq {
                    crate::render::lemma_pointer_index_injective(t, u);
                }
                let padded = pad_nulls(items, ip + 1);
                assert(padded[iq as int] == items[iq as int]);
            },
            _ => {},
        }
    } else {
        lemma_part_at_rest(tp, tq, j);
        match cur {
            JsonView::Object(es) => {
                let c = obj_lookup(es, u)->0;
                lemma_set_elsewhere(c, tp.drop_first(), tq.drop_first(), j - 1, v);
                crate::json::lemma_obj_insert_lookup(es, t, set_tokens(c, tp.drop_first(), v));
            },
            JsonView::Array(items) => {
                let i = pointer_index(u)->0;
                lemma_set_elsewhere(items[i as int], tp.drop_first(), tq.drop_first(), j - 1, v);
                assert(pad_nulls(items, i + 1) == items);
            },
            _ => {},
        }
    }
}

/// A removal along `tp` leaves what lies along `tq`, when the two part
/// before the last step of `tp` or at an object.
proof fn lemma_remove_elsewhere(cur: JsonView, tp: Seq<Seq<char>>, tq: Seq<Seq<char>>, j: int)
    requires
        part_at(tp, tq, j),
        pointer_get(cur, tq) is Some,
        j < tp.len() - 1 || pointer_get(cur, tq.take(j)) matches Some(JsonView::Object(_)),
    ensures
        pointer_get(remove_tokens(cur, tp).0, tq) == pointer_get(cur, tq),
    decreases j,
{
    let t = unescape(tp[0]);
    let u = unescape(tq[0]);
    if j == 0 {
        assert(tq.take(0) =~= Seq::<Seq<char>>::empty());
        match cur {
            JsonView::Object(es) => {
                if tp.len() == 1 {
                    lemma_obj_remove_other(es, t, u);
                } else {
                    match obj_lookup(es, t) {
                        Some(c) => {
                            crate::json::lemma_obj_insert_other(
                                es,
                                t,
                                remove_tokens(c, tp.drop_first()).0,
                                u,
                            );
                        },
                        None => {},
                    }
                }
            },
            JsonView::Array(items) => {
                let iq = pointer_index(u)->0;
                match pointer_index(t) {
                    Some(ip) => {
                        if ip == iq {
                            crate::render::lemma_pointer_index_injective(t, u);
                        }
                    },
                    None => {},
                }
            },
            _ => {},
        }
    } else {
        lemma_part_at_rest(tp, tq, j);
        match cur {
            JsonView::Object(es) => {
                let c = obj_lookup(es, u)->0;
                lemma_remove_elsewhere(c, tp.drop_first(), tq.drop_first(), j - 1);
                crate::json::lemma_obj_insert_lookup(es, t, remove_tokens(c, tp.drop_first()).0);
            },
            JsonView::Array(items) => {
                let i = pointer_index(u)->0;
                lemma_remove_elsewhere(items[i as int], tp.drop_first(), tq.drop_first(), j - 1);
            },
            _ => {},
        }
    }
}

/// What `resolve` finds at a path other than the root is what following
/// its tokens finds.
proof fn lemma_resolve_tokens(root: JsonView, p: Seq<char>)
    requires
        !is_root_path(p),
    ensures
        resolve_path(root, p) == pointer_get(root, path_tokens(p)),
{
    lemma_lookup_tokens(p);
}

/// A write changes only what lies at or under its path: for a path `q` that
/// parts from `p` at token `j` (neither lies at or under the other) and
/// finds a value, `q` finds the same value after `set_at_path(root, p, v)`,
/// at any depth and through arrays, unless the write replaces the array
/// where the two part (its token there is no array index).
pub proof fn law_set_elsewhere(root: JsonView, p: Seq<char>, q: Seq<char>, v: JsonView, j: int)
    requires
        !is_root_path(p),
        !is_root_path(q),
        part_at(path_tokens(p), path_tokens(q), j),
        resolve_path(root, q) is Some,
        pointer_get(root, path_tokens(q).take(j)) matches Some(JsonView::Array(_)) ==> pointer_index(
            unescape(path_tokens(p)[j]),
        ) is Some,
    ensures
        resolve_path(set_path(root, p, v), q) == resolve_path(root, q),
{
    lemma_resolve_tokens(root, q);
    lemma_resolve_tokens(set_path(root, p, v), q);
    lemma_set_elsewhere(root, path_tokens(p), path_tokens(q), j, v);
}

/// A removal changes only what lies at or under its path, and the places
/// that follow a removed array element: for a path `q` that parts from `p`
/// at token `j` and finds a value, `q` finds the same value after
/// `remove_at_path(root, p)` when they part before the last token of `p`
/// or at an object.
pub proof fn law_remove_elsewhere(root: JsonView, p: Seq<char>, q: Seq<char>, j: int)
    requires
        !is_root_path(p),
        !is_root_path(q),
        part_at(path_tokens(p), path_tokens(q), j),
        resolve_path(root, q) is Some,
        j < path_tokens(p).len() - 1 || pointer_get(root, path_tokens(q).take(j)) matches Some(
            JsonView::Object(_),
        ),
    ensures
        resolve_path(remove_path(root, p).0, q) == resolve_path(root, q),
{
    lemma_resolve_tokens(root, q);
    lemma_resolve_tokens(remove_path(root, p).0, q);
    lemma_remove_elsewhere(root, path_tokens(p), path_tokens(q), j);
}

/// A write along `a + b`, where `a` leads to an existing value, leaves at
/// `a` that value with the rest of the write done in it.
proof fn lemma_set_along(cur: JsonView, a: Seq<Seq<char>>, b: Seq<Seq<char>>, v: JsonView)
    requires
        pointer_get(cur, a) is Some,
    ensures
        pointer_get(set_tokens(cur, a + b, v), a) == Some(set_tokens(pointer_get(cur, a)->0, b, v)),
    decreases a.len(),
{
    if a.len() == 0 {
        assert(a + b =~= b);
    } else {
        let t = unescape(a[0]);
        let ab = a + b;
        assert(ab[0] == a[0]);
        assert(ab.drop_first() =~= a.drop_first() + b);
        match cur {
            JsonView::Object(es) => {
                let c = obj_lookup(es, t)->0;
                lemma_set_along(c, a.drop_first(), b, v);
                crate::json::lemma_obj_insert_lookup(es, t, set_tokens(c, a.drop_first() + b, v));
            },
            JsonView::Array(items) => {
                let i = pointer_index(t)->0;
                lemma_set_along(items[i as int], a.drop_first(), b, v);
                assert(pad_nulls(items, i + 1) == items);
            },
            _ => {},
        }
    }
}

/// A write at index `i` of an existing array keeps the array's other
/// elements, fills any gap before `i` with nulls, and so leaves an array of
/// length `max(len, i + 1)` holding the value at `i`.
pub proof fn law_set_in_array(root: JsonView, p: Seq<char>, v: JsonView, items: Seq<JsonView>, i: usize)
    requires
        !is_root_path(p),
        pointer_get(root, path_tokens(p).drop_last()) == Some(JsonView::Array(items)),
        pointer_index(unescape(path_tokens(p).last())) == Some(i),
    ensures
        pointer_get(set_path(root, p, v), path_tokens(p).drop_last()) matches Some(
            JsonView::Array(a),
        ) && a.len() == (if items.len() > i { items.len() as int } else { i + 1 }) && a[i as int] == v
            && forall|k: int|
            0 <= k < a.len() && k != i ==> #[trigger] a[k] == (if k < items.len() {
                items[k]
            } else {
                JsonView::Null
            }),
{
    let toks = path_tokens(p);
    crate::text::lemma_split_on_nonempty(
        if p.len() > 0 && p[0] == '/' {
            p.drop_first()
        } else {
            p
        },
        '/',
    );
    let last = seq![toks.last()];
    assert(toks.drop_last() + last =~= toks);
    lemma_set_along(root, toks.drop_last(), last, v);
    assert(last[0] == toks.last());
    assert(last.drop_first() =~= Seq::<Seq<char>>::empty());
    assert(set_path(root, p, v) == set_tokens(root, toks, v));
    let padded = pad_nulls(items, i + 1);
    let a = padded.update(i as int, v);
    assert(step_index(JsonView::Array(items), unescape(last[0])) == Some(i));
    assert(padded.len() >= i + 1);
    assert(set_tokens(padded[i as int], last.drop_first(), v) == v);
    assert(set_tokens(JsonView::Array(items), last, v) == JsonView::Array(a));
    assert forall|k: int| 0 <= k < a.len() && k != i implies #[trigger] a[k] == (if k < items.len() {
        items[k]
    } else {
        JsonView::Null
    }) by {
        assert(a[k] == padded[k]);
        if k >= items.len() {
            assert(padded[k] == nulls((i + 1 - items.len()) as nat)[k - items.len()]);
        }
    }
}

} // verus!
