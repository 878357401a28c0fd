//! Component model for A2UI surfaces.

use vstd::prelude::*;

use crate::json::{get_str, obj_without, value_get, JsonValue, JsonView};

verus! {

/// The model of a component.
pub struct ComponentView {
    pub id: Seq<char>,
    pub component_type: Seq<char>,
    pub properties: JsonView,
}

/// A single A2UI component's parsed state.
///
/// Component properties are kept as raw JSON because they are
/// catalog-specific and resolved lazily during rendering.
#[derive(Debug, PartialEq)]
pub struct ComponentModel {
    /// The unique ID of this component within the surface.
    pub id: String,
    /// The component type name (e.g. "Text", "Button", "Row").
    pub component_type: String,
    /// All properties as raw JSON (everything except `id` and `component`).
    pub properties: JsonValue,
}

impl View for ComponentModel {
    type V = ComponentView;

    open spec fn view(&self) -> ComponentView {
        ComponentView {
            id: self.id@,
            component_type: self.component_type@,
            properties: self.properties@,
        }
    }
}

impl DeepView for ComponentModel {
    type V = ComponentView;

    open spec fn deep_view(&self) -> ComponentView {
        self@
    }
}

/// The component a JSON value describes: an object with string members `id`
/// and `component`; every other member is a property.
pub open spec fn component_of(v: JsonView) -> Option<ComponentView> {
    match v {
        JsonView::Object(es) => match (get_str(v, "id"@), get_str(v, "component"@)) {
            (Some(id), Some(ct)) => Some(
                ComponentView {
                    id: id,
                    component_type: ct,
                    properties: JsonView::Object(obj_without(es, "id"@, "component"@)),
                },
            ),
            _ => None,
        },
        _ => None,
    }
}

/// The text of property `key` when it is a string; the empty string
/// otherwise.
pub open spec fn str_prop(properties: JsonView, key: Seq<char>) -> Seq<char> {
    match get_str(properties, key) {
        Some(s) => s,
        None => Seq::empty(),
    }
}

impl ComponentModel {
    /// Parse a component from its raw JSON value.
    ///
    /// Expects the JSON to have `"id"` and `"component"` string fields.
    /// All other fields are preserved in `properties`.
    pub fn from_value(value: &JsonValue) -> (r: Option<ComponentModel>)
        ensures
            r.deep_view() == component_of(value@),
    {
        let obj = match value {
            JsonValue::Object(o) => o,
            _ => {
                return None;
            },
        };
        let id = match value.get("id") {
            Some(v) => match v.as_str() {
                Some(s) => s.clone(),
                None => {
                    return None;
                },
            },
            None => {
                return None;
            },
        };
        let component_type = match value.get("component") {
            Some(v) => match v.as_str() {
                Some(s) => s.clone(),
                None => {
                    return None;
                },
            },
            None => {
                return None;
            },
        };
        let properties = obj.without_keys("id", "component");
        Some(ComponentModel { id, component_type, properties: JsonValue::Object(properties) })
    }

    /// Get a property value by key.
    pub fn get_prop(&self, key: &str) -> (r: Option<&JsonValue>)
        ensures
            r.deep_view() == value_get(self.properties@, key@),
    {
        self.properties.get(key)
    }

    /// Get a string property, returning empty string as fallback.
    pub fn get_str_prop(&self, key: &str) -> (r: &str)
        ensures
            r@ == str_prop(self.properties@, key@),
    {
        proof {
            reveal_strlit("");
        }
        match self.properties.get(key) {
            Some(v) => match v.as_str() {
                Some(s) => s.as_str(),
                None => "",
            },
            None => "",
        }
    }

    /// A copy of the component.
    pub fn deep_clone(&self) -> (r: ComponentModel)
        ensures
            r@ == self@,
    {
        ComponentModel {
            id: self.id.clone(),
            component_type: self.component_type.clone(),
            properties: self.properties.deep_clone(),
        }
    }
}

impl Clone for ComponentModel {
    fn clone(&self) -> (r: Self)
        ensures
            r@ == self@,
    {
        self.deep_clone()
    }
}

/// A component parsed from a value keeps every member other than `id` and
/// `component` as a property, and no property is named `id` or `component`.
pub proof fn law_component_properties(v: JsonView, k: Seq<char>)
    requires
        component_of(v) is Some,
        k != "id"@,
        k != "component"@,
    ensures
        value_get(component_of(v)->0.properties, k) == value_get(v, k),
        value_get(component_of(v)->0.properties, "id"@) is None,
        value_get(component_of(v)->0.properties, "component"@) is None,
{
    let es = v->Object_0;
    crate::json::lemma_without_lookup(es, "id"@, "component"@, k);
    crate::json::lemma_without_lookup_removed(es, "id"@, "component"@);
}

} // verus!
