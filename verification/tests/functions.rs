use a2ui::catalog::{minimal_catalog, FunctionImpl};
use a2ui::context::OwnedDataContext;
use a2ui::data_model::DataModel;
use a2ui::functions::{capitalize_from, capitalize_str, Capitalize};
use a2ui::json::{JsonObject, JsonValue};

fn s(t: &str) -> JsonValue {
    JsonValue::String(t.to_string())
}

fn obj(pairs: Vec<(&str, JsonValue)>) -> JsonValue {
    let mut o = JsonObject::new();
    for (k, v) in pairs {
        o.insert(k.to_string(), v);
    }
    JsonValue::Object(o)
}

#[test]
fn capitalize_literal_pure() {
    let capitalized = capitalize_str("hello");
    assert_eq!(capitalized, "Hello");
}

#[test]
fn capitalize_empty_pure() {
    let s = capitalize_str("");
    assert!(s.is_empty());
}

#[test]
fn capitalize_function_resolves_bindings() {
    let dm = DataModel::with_value(obj(vec![("user", s("ada"))]));
    let ctx = OwnedDataContext::root(&dm);
    let f = Capitalize;
    assert_eq!(f.name(), "capitalize");
    let args = obj(vec![("value", obj(vec![("path", s("/user"))]))]);
    assert_eq!(f.execute(&args, &ctx), s("Ada"));
    let literal = obj(vec![("value", s("élan"))]);
    assert_eq!(f.execute(&literal, &ctx), s("Élan"));
    let number = obj(vec![("value", JsonValue::Number("7".to_string()))]);
    assert_eq!(f.execute(&number, &ctx), JsonValue::Number("7".to_string()));
    assert_eq!(f.execute(&obj(vec![]), &ctx), JsonValue::Null);
}

#[test]
fn capitalize_multi_char_uppercase() {
    assert_eq!(capitalize_str("ßa"), "SSa");
}

#[test]
fn catalog_executes_registered_functions() {
    let catalog = minimal_catalog();
    assert_eq!(
        catalog.id,
        "https://a2ui.org/specification/v0_9/catalogs/minimal/minimal_catalog.json"
    );
    for name in ["Text", "Row", "Column", "Button", "TextField"] {
        assert!(catalog.has_component(name));
    }
    assert!(!catalog.has_component("Slider"));
    assert_eq!(catalog.functions.len(), 1);
    assert_eq!(catalog.functions[0].0, "capitalize");
    let dm = DataModel::new();
    let ctx = OwnedDataContext::root(&dm);
    let call = obj(vec![("call", s("capitalize")), ("args", obj(vec![("value", s("x"))]))]);
    assert_eq!(catalog.execute_function(&call, &ctx), s("X"));
    let unknown = obj(vec![("call", s("nope")), ("args", obj(vec![]))]);
    assert_eq!(catalog.execute_function(&unknown, &ctx), JsonValue::Null);
}

#[test]
fn capitalize_from_takes_the_uppercase_form() {
    assert_eq!(capitalize_from("H".to_string(), "hello"), "Hello");
    assert_eq!(capitalize_from("SS".to_string(), "ßa"), "SSa");
    assert_eq!(capitalize_from("X".to_string(), ""), "");
}
