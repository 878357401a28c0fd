use a2ui::context::{DataContext, OwnedDataContext, ResolvedValue};
use a2ui::data_model::DataModel;
use a2ui::incoming::message_lines;
use a2ui::json::{JsonObject, JsonValue};
use a2ui::processor::MessageProcessor;
use a2ui::protocol::{
    A2uiMessage, ClientAction, ClientError, ClientMessage, CreateSurface, DeleteSurface,
    MessagePayload, UpdateComponents, UpdateDataModel,
};
use a2ui::surface::{SurfaceGroupModel, SurfaceModel};

fn num(t: &str) -> JsonValue {
    JsonValue::Number(t.to_string())
}

fn s(t: &str) -> JsonValue {
    JsonValue::String(t.to_string())
}

fn arr(items: Vec<JsonValue>) -> JsonValue {
    JsonValue::Array(items)
}

fn obj(pairs: Vec<(&str, JsonValue)>) -> JsonValue {
    let mut o = JsonObject::new();
    for (k, v) in pairs {
        o.insert(k.to_string(), v);
    }
    JsonValue::Object(o)
}

fn message() -> A2uiMessage {
    A2uiMessage {
        version: "v0.9".to_string(),
        create_surface: None,
        update_components: None,
        update_data_model: None,
        delete_surface: None,
    }
}

fn create(id: &str) -> A2uiMessage {
    let mut m = message();
    m.create_surface = Some(CreateSurface {
        surface_id: id.to_string(),
        catalog_id: "cat".to_string(),
        theme: None,
        send_data_model: Some(true),
    });
    m
}

fn update_data(id: &str, path: Option<&str>, value: Option<JsonValue>) -> A2uiMessage {
    let mut m = message();
    m.update_data_model = Some(UpdateDataModel {
        surface_id: id.to_string(),
        path: path.map(|p| p.to_string()),
        value,
    });
    m
}

fn update_components(id: &str, components: Vec<JsonValue>) -> A2uiMessage {
    let mut m = message();
    m.update_components = Some(UpdateComponents { surface_id: id.to_string(), components });
    m
}

fn delete(id: &str) -> A2uiMessage {
    let mut m = message();
    m.delete_surface = Some(DeleteSurface { surface_id: id.to_string() });
    m
}

// ---------------------------------------------------------------------------
// JSON text and objects
// ---------------------------------------------------------------------------

#[test]
fn json_text_is_compact_with_sorted_keys() {
    let v = obj(vec![
        ("b", arr(vec![num("1"), JsonValue::Bool(true), JsonValue::Null])),
        ("a", s("x\"y")),
    ]);
    assert_eq!(v.to_json_text(), "{\"a\":\"x\\\"y\",\"b\":[1,true,null]}");
    assert_eq!(arr(vec![]).to_json_text(), "[]");
    assert_eq!(obj(vec![]).to_json_text(), "{}");
}

#[test]
fn json_text_escapes_strings() {
    let v = s("a\"b\\c\nd\te\r\u{8}\u{c}\u{1}\u{1f}/é");
    assert_eq!(
        v.to_json_text(),
        "\"a\\\"b\\\\c\\nd\\te\\r\\b\\f\\u0001\\u001f/é\""
    );
    assert_eq!(s("").to_json_text(), "\"\"");
}

#[test]
fn object_insert_replaces_and_keeps_order() {
    let mut o = JsonObject::new();
    assert_eq!(o.insert("m".to_string(), num("1")), None);
    assert_eq!(o.insert("a".to_string(), num("2")), None);
    assert_eq!(o.insert("z".to_string(), num("3")), None);
    assert_eq!(o.insert("m".to_string(), num("4")), Some(num("1")));
    assert_eq!(o.len(), 3);
    assert_eq!(o.key_at(0), "a");
    assert_eq!(o.key_at(1), "m");
    assert_eq!(o.key_at(2), "z");
    assert_eq!(o.get("m"), Some(&num("4")));
    assert_eq!(o.remove("a"), Some(num("2")));
    assert_eq!(o.remove("a"), None);
    assert_eq!(o.len(), 2);
}

// ---------------------------------------------------------------------------
// Data model and contexts
// ---------------------------------------------------------------------------

#[test]
fn data_model_set_get_remove() {
    let mut dm = DataModel::new();
    assert_eq!(dm.snapshot(), obj(vec![]));
    dm.set("/user/name", s("Ann"));
    assert_eq!(dm.get("/user/name"), Some(s("Ann")));
    assert_eq!(dm.get_relative("name", "/user"), Some(s("Ann")));
    assert_eq!(dm.remove("/user/name"), Some(s("Ann")));
    assert_eq!(dm.get("/user/name"), None);
    dm.replace(num("9"));
    assert_eq!(dm.snapshot(), num("9"));
    assert_eq!(DataModel::default().snapshot(), obj(vec![]));
}

#[test]
fn resolve_dynamic_forms() {
    let dm = DataModel::with_value(obj(vec![("items", arr(vec![obj(vec![("title", s("T0"))])]))]));
    let root = DataContext::root(&dm);
    assert_eq!(root.base_path(), "");
    // a binding
    match root.resolve_dynamic(&obj(vec![("path", s("/items/0/title"))])) {
        ResolvedValue::Resolved(v) => assert_eq!(v, s("T0")),
        other => panic!("unexpected {:?}", other),
    }
    // a binding to nothing, and a path that is not a string
    assert_eq!(root.resolve_value(&obj(vec![("path", s("/missing"))])), JsonValue::Null);
    assert_eq!(root.resolve_value(&obj(vec![("path", num("1"))])), JsonValue::Null);
    // a function call
    let call = obj(vec![("call", s("capitalize"))]);
    match root.resolve_dynamic(&call) {
        ResolvedValue::FunctionCall(v) => assert_eq!(v, call),
        other => panic!("unexpected {:?}", other),
    }
    assert_eq!(root.resolve_value(&call), JsonValue::Null);
    // a literal
    assert_eq!(root.resolve_value(&num("3")), num("3"));
    // relative, in an item's context
    let item = OwnedDataContext::with_base(&dm, "/items/0".to_string());
    assert_eq!(item.resolve_string(&obj(vec![("path", s("title"))])), "T0");
    assert_eq!(item.base_path(), "/items/0");
}

#[test]
fn resolve_string_and_bool() {
    let dm = DataModel::new();
    let ctx = DataContext::root(&dm);
    assert_eq!(ctx.resolve_string(&s("hi")), "hi");
    assert_eq!(ctx.resolve_string(&num("2.5")), "2.5");
    assert_eq!(ctx.resolve_string(&JsonValue::Bool(false)), "false");
    assert_eq!(ctx.resolve_string(&JsonValue::Null), "");
    assert_eq!(ctx.resolve_string(&arr(vec![num("1"), s("a")])), "[1,\"a\"]");
    assert!(ctx.resolve_bool(&JsonValue::Bool(true)));
    assert!(!ctx.resolve_bool(&JsonValue::Null));
    assert!(!ctx.resolve_bool(&s("")));
    assert!(ctx.resolve_bool(&s("x")));
    assert!(!ctx.resolve_bool(&num("0")));
    assert!(!ctx.resolve_bool(&num("-0.0")));
    assert!(ctx.resolve_bool(&num("1e-7")));
    assert!(ctx.resolve_bool(&num("0.5")));
    assert!(ctx.resolve_bool(&arr(vec![])));
}

#[test]
fn binding_paths() {
    let dm = DataModel::new();
    let ctx = OwnedDataContext::with_base(&dm, "/list/2".to_string());
    assert_eq!(
        ctx.resolve_binding_path(&obj(vec![("path", s("name"))])),
        Some("/list/2/name".to_string())
    );
    assert_eq!(
        ctx.resolve_binding_path(&obj(vec![("path", s("/abs"))])),
        Some("/abs".to_string())
    );
    assert_eq!(ctx.resolve_binding_path(&s("literal")), None);
    let root = DataContext::root(&dm);
    assert_eq!(root.resolve_binding_path(&obj(vec![("path", s("u"))])), Some("/u".to_string()));
}

#[test]
fn validation_messages() {
    let dm = DataModel::with_value(obj(vec![("ok", JsonValue::Bool(true)), ("bad", JsonValue::Bool(false))]));
    let ctx = OwnedDataContext::root(&dm);
    let checks = vec![
        obj(vec![("condition", obj(vec![("path", s("/ok"))])), ("message", s("never"))]),
        obj(vec![("condition", obj(vec![("path", s("/bad"))])), ("message", s("bad one"))]),
        obj(vec![("condition", obj(vec![("path", s("/missing"))]))]),
        obj(vec![("message", s("no condition"))]),
        obj(vec![("condition", num("0"))]),
    ];
    assert_eq!(
        ctx.failed_checks(&checks),
        vec!["bad one".to_string(), "Validation failed".to_string()]
    );
}

// ---------------------------------------------------------------------------
// Surfaces and the processor
// ---------------------------------------------------------------------------

#[test]
fn surface_upsert_and_update() {
    let mut surface = SurfaceModel::new("s1", "cat");
    assert_eq!(surface.id, "s1");
    assert!(!surface.send_data_model);
    surface.upsert_components(&[
        obj(vec![("id", s("root")), ("component", s("Column"))]),
        obj(vec![("component", s("Text"))]),
        obj(vec![("id", s("root")), ("component", s("Row"))]),
    ]);
    assert_eq!(surface.get_component("root").unwrap().component_type, "Row");
    assert!(surface.get_component("missing").is_none());
    surface.update_data(Some("/n"), Some(num("1")));
    assert_eq!(surface.data_model.get("/n"), Some(num("1")));
    surface.update_data(Some("/n"), None);
    assert_eq!(surface.data_model.get("/n"), None);
    surface.update_data(None, Some(obj(vec![("all", JsonValue::Bool(true))])));
    assert_eq!(surface.data_model.snapshot(), obj(vec![("all", JsonValue::Bool(true))]));
}

#[test]
fn upsert_keeps_components_not_named() {
    let mut surface = SurfaceModel::new("s1", "cat");
    surface.upsert_components(&[obj(vec![("id", s("a")), ("component", s("Text")), ("text", s("x"))])]);
    surface.upsert_components(&[
        obj(vec![("id", s("b")), ("component", s("Button"))]),
        s("not a component"),
    ]);
    let a = surface.get_component("a").unwrap();
    assert_eq!(a.component_type, "Text");
    assert_eq!(a.get_str_prop("text"), "x");
    assert_eq!(surface.get_component("b").unwrap().component_type, "Button");
}

#[test]
fn surface_group_create_get_delete() {
    let mut group = SurfaceGroupModel::new();
    let created = group.create_surface("a", "cat", Some(s("dark")), true);
    assert_eq!(created.id, "a");
    assert_eq!(created.theme, Some(s("dark")));
    assert!(group.get_surface("a").unwrap().send_data_model);
    assert!(group.get_surface("b").is_none());
    assert!(group.delete_surface("a"));
    assert!(!group.delete_surface("a"));
    assert!(group.get_surface("a").is_none());
}

#[test]
fn processor_runs_a_login_form() {
    let mut p = MessageProcessor::new();
    p.process_all(&[
        create("login"),
        update_components(
            "login",
            vec![
                obj(vec![("id", s("root")), ("component", s("Column")), ("children", arr(vec![s("t")]))]),
                obj(vec![("id", s("t")), ("component", s("Text")), ("text", s("Login"))]),
            ],
        ),
        update_data("login", Some("/username"), Some(s("alice"))),
        update_data("other", Some("/x"), Some(num("1"))),
    ]);
    let surface = p.surfaces.get_surface("login").unwrap();
    assert_eq!(surface.catalog_id, "cat");
    assert!(surface.send_data_model);
    assert_eq!(surface.get_component("t").unwrap().get_str_prop("text"), "Login");
    assert_eq!(surface.data_model.get("/username"), Some(s("alice")));
    assert!(p.surfaces.get_surface("other").is_none());
    p.process(&delete("login"));
    assert!(p.surfaces.get_surface("login").is_none());
    // a message without payload changes nothing
    p.process(&message());
    assert!(MessageProcessor::default().surfaces.get_surface("login").is_none());
}

#[test]
fn process_all_in_two_parts_is_process_all_at_once() {
    let xs = vec![create("a"), update_data("a", Some("/n"), Some(num("1")))];
    let ys = vec![update_data("a", Some("/m"), Some(num("2"))), delete("b")];
    let mut split = MessageProcessor::new();
    split.process_all(&xs);
    split.process_all(&ys);
    split.process_all(&[]);
    let mut whole = MessageProcessor::new();
    let all: Vec<A2uiMessage> = xs.into_iter().chain(ys).collect();
    whole.process_all(&all);
    let a1 = split.surfaces.get_surface("a").unwrap();
    let a2 = whole.surfaces.get_surface("a").unwrap();
    assert_eq!(a1.data_model.snapshot(), a2.data_model.snapshot());
    assert_eq!(a1.data_model.get("/m"), Some(num("2")));
}

#[test]
fn payload_picks_the_first_present() {
    let mut m = create("a");
    m.delete_surface = Some(DeleteSurface { surface_id: "b".to_string() });
    assert!(matches!(m.payload(), Some(MessagePayload::CreateSurface(_))));
    assert!(matches!(delete("x").payload(), Some(MessagePayload::DeleteSurface(_))));
    assert!(message().payload().is_none());
}

#[test]
fn client_messages() {
    let msg = ClientMessage::action(ClientAction {
        name: "submit".to_string(),
        surface_id: "s1".to_string(),
        source_component_id: "btn1".to_string(),
        timestamp: "2026-01-01T00:00:00Z".to_string(),
        context: obj(vec![("key", s("value"))]),
    });
    assert_eq!(msg.version, "v0.9");
    assert_eq!(msg.action.as_ref().unwrap().name, "submit");
    assert!(msg.error.is_none());
    let err = ClientMessage::error(ClientError {
        code: "E".to_string(),
        surface_id: "s1".to_string(),
        message: "m".to_string(),
        path: None,
    });
    assert_eq!(err.version, "v0.9");
    assert!(err.action.is_none());
    assert_eq!(err.error.unwrap().code, "E");
}

#[test]
fn message_lines_split_and_trim() {
    assert_eq!(
        message_lines("  {\"a\":1}\r\n\n   \n{\"b\":2}  \n"),
        vec!["{\"a\":1}".to_string(), "{\"b\":2}".to_string()]
    );
    assert!(message_lines("").is_empty());
    assert!(message_lines(" \n\t\n").is_empty());
    assert_eq!(message_lines("one"), vec!["one".to_string()]);
}

#[test]
fn message_lines_trims_exactly_the_white_space_characters() {
    let white = |n: u32| {
        (0x9..=0xd).contains(&n)
            || n == 0x20
            || n == 0x85
            || n == 0xa0
            || n == 0x1680
            || (0x2000..=0x200a).contains(&n)
            || n == 0x2028
            || n == 0x2029
            || n == 0x202f
            || n == 0x205f
            || n == 0x3000
    };
    let mut n: u32 = 0;
    while n <= 0x10ffff {
        if let Some(c) = char::from_u32(n) {
            let payload = format!("{c}x{c}");
            let lines = message_lines(&payload);
            if white(n) {
                assert_eq!(lines, vec!["x".to_string()], "U+{n:04X}");
            } else {
                assert_eq!(lines, vec![payload], "U+{n:04X}");
            }
        }
        n += if n < 0x3100 { 1 } else { 97 };
    }
    assert_eq!(message_lines("a\r\n b \r\n"), vec!["a".to_string(), "b".to_string()]);
}
