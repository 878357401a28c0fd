//! Built-in function implementations for the A2UI catalogs.

use vstd::prelude::*;

use crate::catalog::FunctionImpl;
use crate::context::{resolve_value_spec, OwnedDataContext};
use crate::json::{value_get, JsonValue, JsonView};
use crate::pointer::{absolute_path, resolve_path};
use crate::text::{chars_of, push_char, string_of};

verus! {

/// The uppercase form of a character, as `char::to_uppercase` gives it
/// (one or more characters).
pub uninterp spec fn uppercase_of(c: char) -> Seq<char>;

/// The uppercase form of a character (std `char::to_uppercase`).
///
/// The contract names the result `uppercase_of(c)`; the Unicode case tables
/// behind it are not stated here.
#[verifier::external_body]
fn char_to_uppercase(c: char) -> (r: String)
    ensures
        r@ == uppercase_of(c),
{
    c.to_uppercase().to_string()
}

/// A string with its first character in uppercase.
pub open spec fn capitalized(s: Seq<char>) -> Seq<char> {
    if s.len() == 0 {
        s
    } else {
        uppercase_of(s[0]) + s.drop_first()
    }
}

/// The name `capitalize` is registered under.
pub open spec fn capitalize_name() -> Seq<char> {
    "capitalize"@
}

/// What `capitalize` gives: its `value` argument resolved in the context;
/// a string comes back capitalized, anything else as it is.
pub open spec fn capitalize_spec(args: JsonView, data: JsonView, base: Seq<char>) -> JsonView {
    let v = match value_get(args, "value"@) {
        Some(x) => x,
        None => JsonView::Null,
    };
    let r = resolve_value_spec(data, base, v);
    match r {
        JsonView::Str(s) => JsonView::Str(capitalized(s)),
        _ => r,
    }
}

/// A string with its first character replaced by `upper`, the uppercase
/// form of that character; the empty string stays empty.
pub open spec fn capitalized_with(upper: Seq<char>, s: Seq<char>) -> Seq<char> {
    if s.len() == 0 {
        s
    } else {
        upper + s.drop_first()
    }
}

/// Builds the capitalized string from the uppercase form of the first
/// character: `upper` followed by the rest of `s` (the empty string stays
/// empty).
pub fn capitalize_from(upper: String, s: &str) -> (r: String)
    ensures
        r@ == capitalized_with(upper@, s@),
{
    let cs = chars_of(s);
    if cs.len() == 0 {
        return String::new();
    }
    let mut out = upper;
    let ghost head = out@;
    let mut i: usize = 1;
    while i < cs.len()
        invariant
            1 <= i <= cs@.len(),
            out@ == head + cs@.subrange(1, i as int),
        decreases cs.len() - i,
    {
        proof {
            assert(cs@.subrange(1, i + 1) =~= cs@.subrange(1, i as int).push(cs@[i as int]));
        }
        push_char(&mut out, cs[i]);
        i = i + 1;
    }
    proof {
        assert(cs@.subrange(1, i as int) =~= cs@.drop_first());
    }
    out
}

/// Capitalizes a string: its first character in uppercase, the rest as it is.
pub fn capitalize_str(s: &str) -> (r: String)
    ensures
        r@ == capitalized(s@),
{
    let cs = chars_of(s);
    if cs.len() == 0 {
        return String::new();
    }
    let upper = char_to_uppercase(cs[0]);
    capitalize_from(upper, s)
}

/// `capitalize`: converts a string to capitalized form.
pub struct Capitalize;

impl FunctionImpl for Capitalize {
    open spec fn spec_name(&self) -> Seq<char> {
        capitalize_name()
    }

    open spec fn spec_execute(&self, args: JsonView, data: JsonView, base: Seq<char>) -> JsonView {
        capitalize_spec(args, data, base)
    }

    fn name(&self) -> (r: &str) {
        "capitalize"
    }

    fn execute(&self, args: &JsonValue, ctx: &OwnedDataContext) -> (r: JsonValue) {
        let value = match args.get("value") {
            Some(v) => v.deep_clone(),
            None => JsonValue::Null,
        };
        let resolved = ctx.resolve_value(&value);
        match resolved {
            JsonValue::String(s) => JsonValue::String(capitalize_str(s.as_str())),
            other => other,
        }
    }
}

// ---------------------------------------------------------------------------
// Laws
// ---------------------------------------------------------------------------

/// `capitalize` works on its `value` argument as the caller's context
/// resolves it, whatever that context's base path: a string comes back
/// capitalized, any other value as the context resolves it.
pub proof fn law_capitalize_resolves_in_context(args: JsonView, data: JsonView, base: Seq<char>)
    ensures
        ({
            let arg = match value_get(args, "value"@) {
                Some(x) => x,
                None => JsonView::Null,
            };
            Capitalize.spec_execute(args, data, base) == match resolve_value_spec(data, base, arg) {
                JsonView::Str(s) => JsonView::Str(capitalized(s)),
                r => r,
            }
        }),
{
}

/// Arguments that bind `value` to the data at `path`.
pub open spec fn value_bound_to(path: Seq<char>) -> JsonView {
    JsonView::Object(seq![("value"@, JsonView::Object(seq![("path"@, JsonView::Str(path))]))])
}

/// A bound argument is read from the data at its path made absolute
/// against the caller's base path: a string found there comes back
/// capitalized, another value as it is, and nothing found gives null.
pub proof fn law_capitalize_binding(data: JsonView, base: Seq<char>, path: Seq<char>)
    ensures
        Capitalize.spec_execute(value_bound_to(path), data, base) == match resolve_path(
            data,
            absolute_path(path, base),
        ) {
            Some(JsonView::Str(s)) => JsonView::Str(capitalized(s)),
            Some(x) => x,
            None => JsonView::Null,
        },
{
    reveal_strlit("value");
    reveal_strlit("path");
    let inner = JsonView::Object(seq![("path"@, JsonView::Str(path))]);
    let ies = seq![("path"@, JsonView::Str(path))];
    let oes = seq![("value"@, inner)];
    assert(crate::json::obj_index(oes, "value"@) == 0);
    assert(value_get(value_bound_to(path), "value"@) == Some(inner));
    assert(crate::json::obj_index(ies, "path"@) == 0);
    assert(value_get(inner, "path"@) == Some(JsonView::Str(path)));
    assert(crate::json::get_str(inner, "path"@) == Some(path));
    assert(crate::json::has_key(inner, "path"@));
}

} // verus!
