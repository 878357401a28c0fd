use a2ui::json::{JsonObject, JsonValue};
use a2ui::pointer::{make_absolute, remove_at_path, resolve, set_at_path, unescape_token};

fn num(t: &str) -> JsonValue {
    JsonValue::Number(t.to_string())
}

fn s(t: &str) -> JsonValue {
    JsonValue::String(t.to_string())
}

fn arr(items: Vec<JsonValue>) -> JsonValue {
    JsonValue::Array(items)
}

fn obj(pairs: Vec<(&str, JsonValue)>) -> JsonValue {
    let mut o = JsonObject::new();
    for (k, v) in pairs {
        o.insert(k.to_string(), v);
    }
    JsonValue::Object(o)
}

#[test]
fn resolve_root() {
    let data = obj(vec![("a", num("1"))]);
    assert_eq!(resolve(&data, ""), Some(data.clone()));
    assert_eq!(resolve(&data, "/"), Some(data.clone()));
}

#[test]
fn resolve_absolute() {
    let data = obj(vec![("user", obj(vec![("name", s("Alice")), ("age", num("30"))]))]);
    assert_eq!(resolve(&data, "/user/name"), Some(s("Alice")));
    assert_eq!(resolve(&data, "/user/age"), Some(num("30")));
}

#[test]
fn resolve_relative() {
    let data = obj(vec![("name", s("Bob"))]);
    // Relative paths get a leading `/` prepended
    assert_eq!(resolve(&data, "name"), Some(s("Bob")));
}

#[test]
fn resolve_array_index() {
    let data = obj(vec![("items", arr(vec![s("a"), s("b"), s("c")]))]);
    assert_eq!(resolve(&data, "/items/1"), Some(s("b")));
}

#[test]
fn resolve_missing() {
    let data = obj(vec![("a", num("1"))]);
    assert_eq!(resolve(&data, "/b"), None);
    assert_eq!(resolve(&data, "/a/b"), None);
}

#[test]
fn set_simple() {
    let mut data = obj(vec![]);
    set_at_path(&mut data, "/name", s("Alice"));
    assert_eq!(data, obj(vec![("name", s("Alice"))]));
}

#[test]
fn set_nested() {
    let mut data = obj(vec![]);
    set_at_path(&mut data, "/user/name", s("Bob"));
    assert_eq!(data, obj(vec![("user", obj(vec![("name", s("Bob"))]))]));
}

#[test]
fn set_array_index() {
    let mut data = obj(vec![("items", arr(vec![s("a"), s("b")]))]);
    set_at_path(&mut data, "/items/2", s("c"));
    assert_eq!(data, obj(vec![("items", arr(vec![s("a"), s("b"), s("c")]))]));
}

#[test]
fn set_root() {
    let mut data = obj(vec![]);
    set_at_path(&mut data, "/", obj(vec![("replaced", JsonValue::Bool(true))]));
    assert_eq!(data, obj(vec![("replaced", JsonValue::Bool(true))]));
}

#[test]
fn remove_key() {
    let mut data = obj(vec![("a", num("1")), ("b", num("2"))]);
    let removed = remove_at_path(&mut data, "/a");
    assert_eq!(removed, Some(num("1")));
    assert_eq!(data, obj(vec![("b", num("2"))]));
}

#[test]
fn remove_array_element() {
    let mut data = obj(vec![("items", arr(vec![s("a"), s("b"), s("c")]))]);
    let removed = remove_at_path(&mut data, "/items/1");
    assert_eq!(removed, Some(s("b")));
    assert_eq!(data, obj(vec![("items", arr(vec![s("a"), s("c")]))]));
}

#[test]
fn make_absolute_already_absolute() {
    assert_eq!(make_absolute("/foo/bar", "/base"), "/foo/bar");
}

#[test]
fn make_absolute_relative_with_base() {
    assert_eq!(make_absolute("name", "/items/0"), "/items/0/name");
}

#[test]
fn make_absolute_relative_empty_base() {
    assert_eq!(make_absolute("name", ""), "/name");
}

// ---------------------------------------------------------------------------
// Further cases
// ---------------------------------------------------------------------------

#[test]
fn make_absolute_trims_trailing_slashes_of_base() {
    assert_eq!(make_absolute("name", "/items/0//"), "/items/0/name");
    assert_eq!(make_absolute("name", "/"), "/name");
    assert_eq!(make_absolute("", "/a"), "/a/");
}

#[test]
fn unescape_token_order() {
    assert_eq!(unescape_token("a~1b"), "a/b");
    assert_eq!(unescape_token("m~0n"), "m~n");
    // `~01` is `~0` then `1`: it reads as `~1`, not as `/`
    assert_eq!(unescape_token("~01"), "~1");
    assert_eq!(unescape_token("plain"), "plain");
}

#[test]
fn resolve_escaped_keys() {
    let data = obj(vec![("a/b", num("1")), ("m~n", num("2"))]);
    assert_eq!(resolve(&data, "/a~1b"), Some(num("1")));
    assert_eq!(resolve(&data, "/m~0n"), Some(num("2")));
}

#[test]
fn resolve_index_forms() {
    let data = obj(vec![("items", arr(vec![s("a"), s("b")]))]);
    // JSON Pointer lookup takes no sign and no leading zero
    assert_eq!(resolve(&data, "/items/01"), None);
    assert_eq!(resolve(&data, "/items/+1"), None);
    assert_eq!(resolve(&data, "/items/0"), Some(s("a")));
    assert_eq!(resolve(&data, "/items/2"), None);
    assert_eq!(resolve(&data, "/items/x"), None);
}

#[test]
fn resolve_into_scalar_is_missing() {
    let data = obj(vec![("a", s("text"))]);
    assert_eq!(resolve(&data, "/a/0"), None);
}

#[test]
fn set_pads_arrays_with_nulls() {
    let mut data = obj(vec![]);
    set_at_path(&mut data, "/items/2", s("c"));
    assert_eq!(
        data,
        obj(vec![("items", arr(vec![JsonValue::Null, JsonValue::Null, s("c")]))])
    );
}

#[test]
fn set_replaces_scalars_on_the_way() {
    let mut data = obj(vec![("a", num("5"))]);
    set_at_path(&mut data, "/a/b", JsonValue::Bool(false));
    assert_eq!(data, obj(vec![("a", obj(vec![("b", JsonValue::Bool(false))]))]));
    // at an existing object a numeric token names a member
    let mut data2 = obj(vec![("a", obj(vec![("0", num("1")), ("k", num("2"))]))]);
    set_at_path(&mut data2, "/a/0", num("9"));
    assert_eq!(data2, obj(vec![("a", obj(vec![("0", num("9")), ("k", num("2"))]))]));
    // where nothing is, a numeric token makes an array
    let mut data3 = obj(vec![("a", num("5"))]);
    set_at_path(&mut data3, "/a/0", s("x"));
    assert_eq!(data3, obj(vec![("a", arr(vec![s("x")]))]));
}

#[test]
fn set_relative_and_empty_path() {
    let mut data = obj(vec![]);
    set_at_path(&mut data, "name", s("n"));
    assert_eq!(data, obj(vec![("name", s("n"))]));
    set_at_path(&mut data, "", s("whole"));
    assert_eq!(data, s("whole"));
}

#[test]
fn set_then_resolve_reads_back() {
    let mut data = obj(vec![("keep", num("1"))]);
    set_at_path(&mut data, "/deep/list/1/name", s("v"));
    assert_eq!(resolve(&data, "/deep/list/1/name"), Some(s("v")));
    assert_eq!(resolve(&data, "/keep"), Some(num("1")));
}

#[test]
fn set_with_leading_zero_token_is_read_back() {
    // `01` is no array index in JSON Pointer, so it keys an object
    let mut data = obj(vec![]);
    set_at_path(&mut data, "/a/01", s("x"));
    assert_eq!(data, obj(vec![("a", obj(vec![("01", s("x"))]))]));
    assert_eq!(resolve(&data, "/a/01"), Some(s("x")));
}

#[test]
fn remove_numeric_member_of_object() {
    let mut data = obj(vec![("0", s("x")), ("k", num("1"))]);
    assert_eq!(remove_at_path(&mut data, "/0"), Some(s("x")));
    assert_eq!(data, obj(vec![("k", num("1"))]));
}

#[test]
fn remove_array_element_shifts_the_rest() {
    let mut data = obj(vec![("items", arr(vec![s("a"), s("b")]))]);
    assert_eq!(remove_at_path(&mut data, "/items/01"), None);
    assert_eq!(remove_at_path(&mut data, "/items/0"), Some(s("a")));
    assert_eq!(resolve(&data, "/items/0"), Some(s("b")));
    assert_eq!(data, obj(vec![("items", arr(vec![s("b")]))]));
}

#[test]
fn remove_root_and_missing() {
    let mut data = obj(vec![("a", num("1"))]);
    let removed = remove_at_path(&mut data, "/");
    assert_eq!(removed, Some(obj(vec![("a", num("1"))])));
    assert_eq!(data, obj(vec![]));

    let mut data = obj(vec![("a", num("1"))]);
    assert_eq!(remove_at_path(&mut data, "/b"), None);
    assert_eq!(remove_at_path(&mut data, "/a/b"), None);
    assert_eq!(remove_at_path(&mut data, "/0"), None);
    assert_eq!(data, obj(vec![("a", num("1"))]));
}

#[test]
fn remove_nested_then_resolve_is_missing() {
    let mut data = obj(vec![("u", obj(vec![("n", s("x")), ("m", s("y"))]))]);
    assert_eq!(remove_at_path(&mut data, "/u/n"), Some(s("x")));
    assert_eq!(resolve(&data, "/u/n"), None);
    assert_eq!(resolve(&data, "/u/m"), Some(s("y")));
}
