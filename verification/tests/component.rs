use a2ui::component::ComponentModel;
use a2ui::json::{JsonObject, JsonValue};

fn s(t: &str) -> JsonValue {
    JsonValue::String(t.to_string())
}

fn obj(pairs: Vec<(&str, JsonValue)>) -> JsonValue {
    let mut o = JsonObject::new();
    for (k, v) in pairs {
        o.insert(k.to_string(), v);
    }
    JsonValue::Object(o)
}

#[test]
fn parse_text_component() {
    let raw = obj(vec![
        ("id", s("title")),
        ("component", s("Text")),
        ("text", s("Hello World")),
        ("variant", s("h1")),
    ]);
    let model = ComponentModel::from_value(&raw).unwrap();
    assert_eq!(model.id, "title");
    assert_eq!(model.component_type, "Text");
    assert_eq!(model.get_str_prop("variant"), "h1");
    assert_eq!(model.get_prop("text"), Some(&s("Hello World")));
}

#[test]
fn parse_button_with_action() {
    let raw = obj(vec![
        ("id", s("btn")),
        ("component", s("Button")),
        ("child", s("label")),
        ("action", obj(vec![("event", obj(vec![("name", s("click"))]))])),
    ]);
    let model = ComponentModel::from_value(&raw).unwrap();
    assert_eq!(model.component_type, "Button");
    assert_eq!(model.get_str_prop("child"), "label");
    assert!(model.get_prop("action").is_some());
}

#[test]
fn parse_missing_id() {
    let raw = obj(vec![("component", s("Text")), ("text", s("no id"))]);
    assert!(ComponentModel::from_value(&raw).is_none());
}

#[test]
fn parse_missing_component() {
    let raw = obj(vec![("id", s("x")), ("text", s("no type"))]);
    assert!(ComponentModel::from_value(&raw).is_none());
}

#[test]
fn parse_drops_id_and_component_from_properties() {
    let raw = obj(vec![("id", s("a")), ("component", s("Row")), ("justify", s("center"))]);
    let model = ComponentModel::from_value(&raw).unwrap();
    assert_eq!(model.properties, obj(vec![("justify", s("center"))]));
    assert_eq!(model.get_prop("id"), None);
    assert_eq!(model.get_prop("component"), None);
}

#[test]
fn parse_rejects_non_string_id_and_non_objects() {
    let raw = obj(vec![("id", JsonValue::Bool(true)), ("component", s("Text"))]);
    assert!(ComponentModel::from_value(&raw).is_none());
    assert!(ComponentModel::from_value(&s("Text")).is_none());
}

#[test]
fn str_prop_falls_back_to_empty() {
    let raw = obj(vec![
        ("id", s("a")),
        ("component", s("Text")),
        ("n", JsonValue::Number("3".to_string())),
    ]);
    let model = ComponentModel::from_value(&raw).unwrap();
    assert_eq!(model.get_str_prop("n"), "");
    assert_eq!(model.get_str_prop("missing"), "");
}
