use a2ui::component::ComponentModel;
use a2ui::data_model::DataModel;
use a2ui::json::{JsonObject, JsonValue};
use a2ui::render::{
    align_css, button_action, button_class, column_children, component_kind, fallback_label,
    get_static_children, justify_css, text_element, text_field_input_type, text_field_is_long,
    Children, ComponentKind, TextElement,
};

fn s(t: &str) -> JsonValue {
    JsonValue::String(t.to_string())
}

fn arr(items: Vec<JsonValue>) -> JsonValue {
    JsonValue::Array(items)
}

fn obj(pairs: Vec<(&str, JsonValue)>) -> JsonValue {
    let mut o = JsonObject::new();
    for (k, v) in pairs {
        o.insert(k.to_string(), v);
    }
    JsonValue::Object(o)
}

fn model(pairs: Vec<(&str, JsonValue)>) -> ComponentModel {
    ComponentModel::from_value(&obj(pairs)).unwrap()
}

#[test]
fn classes_and_elements() {
    assert_eq!(button_class("primary"), "a2ui-button a2ui-button-primary");
    assert_eq!(button_class("borderless"), "a2ui-button a2ui-button-borderless");
    assert_eq!(button_class(""), "a2ui-button");
    assert_eq!(justify_css("spaceBetween"), "space-between");
    assert_eq!(justify_css("end"), "flex-end");
    assert_eq!(justify_css("start"), "flex-start");
    assert_eq!(align_css("stretch"), "stretch");
    assert_eq!(align_css("spaceBetween"), "flex-start");
    assert_eq!(text_element("h3"), TextElement::H3);
    assert_eq!(text_element("caption"), TextElement::Caption);
    assert_eq!(text_element("h6"), TextElement::Body);
    assert_eq!(text_field_input_type("obscured"), "password");
    assert_eq!(text_field_input_type("shortText"), "text");
    assert!(text_field_is_long("longText"));
    assert_eq!(component_kind("TextField"), ComponentKind::TextField);
    assert_eq!(component_kind("Slider"), ComponentKind::Fallback);
}

#[test]
fn static_and_template_children() {
    let row = model(vec![
        ("id", s("r")),
        ("component", s("Row")),
        ("children", arr(vec![s("a"), JsonValue::Null, s("b")])),
    ]);
    assert_eq!(get_static_children(&row), vec!["a".to_string(), "b".to_string()]);
    let text = model(vec![("id", s("t")), ("component", s("Text"))]);
    assert!(get_static_children(&text).is_empty());

    let dm = DataModel::with_value(obj(vec![(
        "restaurants",
        arr(vec![obj(vec![]), obj(vec![]), obj(vec![])]),
    )]));
    let column = model(vec![
        ("id", s("root")),
        ("component", s("Column")),
        ("children", obj(vec![("path", s("/restaurants")), ("componentId", s("card"))])),
    ]);
    match column_children(&column, &dm, "") {
        Children::Template { component_id, base_paths } => {
            assert_eq!(component_id, "card");
            assert_eq!(
                base_paths,
                vec![
                    "/restaurants/0".to_string(),
                    "/restaurants/1".to_string(),
                    "/restaurants/2".to_string()
                ]
            );
        }
        other => panic!("unexpected {:?}", other),
    }
    match column_children(&row, &dm, "") {
        Children::Static(ids) => assert_eq!(ids, vec!["a".to_string(), "b".to_string()]),
        other => panic!("unexpected {:?}", other),
    }
    assert!(matches!(column_children(&text, &dm, ""), Children::Empty));
}

#[test]
fn template_over_missing_data_has_no_items() {
    let dm = DataModel::new();
    let column = model(vec![
        ("id", s("c")),
        ("component", s("Column")),
        ("children", obj(vec![("path", s("items")), ("componentId", s("x"))])),
    ]);
    match column_children(&column, &dm, "/base") {
        Children::Template { base_paths, .. } => assert!(base_paths.is_empty()),
        other => panic!("unexpected {:?}", other),
    }
}

#[test]
fn button_actions() {
    let button = model(vec![
        ("id", s("submit")),
        ("component", s("Button")),
        (
            "action",
            obj(vec![(
                "event",
                obj(vec![("name", s("login")), ("context", obj(vec![("u", s("x"))]))]),
            )]),
        ),
    ]);
    let action = button_action(&button, "form", "t0".to_string()).unwrap();
    assert_eq!(action.name, "login");
    assert_eq!(action.surface_id, "form");
    assert_eq!(action.source_component_id, "submit");
    assert_eq!(action.timestamp, "t0");
    assert_eq!(action.context, obj(vec![("u", s("x"))]));

    let no_event = model(vec![("id", s("b")), ("component", s("Button")), ("action", obj(vec![]))]);
    assert!(button_action(&no_event, "form", "t".to_string()).is_none());
    let bare_event = model(vec![
        ("id", s("b")),
        ("component", s("Button")),
        ("action", obj(vec![("event", obj(vec![]))])),
    ]);
    let a = button_action(&bare_event, "f", "t".to_string()).unwrap();
    assert_eq!(a.name, "");
    assert_eq!(a.context, JsonValue::Null);
}

#[test]
fn fallback_labels() {
    let m = model(vec![("id", s("x1")), ("component", s("Slider"))]);
    assert_eq!(fallback_label(&m), "Unknown: Slider (id: x1)");
}
