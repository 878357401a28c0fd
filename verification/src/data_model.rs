//! The data store of a surface: one JSON value, read and written by path.

use vstd::prelude::*;

use crate::json::{empty_object, JsonValue, JsonView};
use crate::pointer::{
    absolute_path, make_absolute, remove_at_path, remove_path, resolve, resolve_path,
    set_at_path, set_path,
};

verus! {

/// A JSON data store for a single A2UI surface.
pub struct DataModel {
    data: JsonValue,
}

impl View for DataModel {
    type V = JsonView;

    closed spec fn view(&self) -> JsonView {
        self.data@
    }
}

impl DataModel {
    /// Create a new empty data model (empty JSON object).
    pub fn new() -> (r: Self)
        ensures
            r@ == empty_object(),
    {
        DataModel { data: JsonValue::new_object() }
    }

    /// Create a data model with an initial value.
    pub fn with_value(value: JsonValue) -> (r: Self)
        ensures
            r@ == value@,
    {
        DataModel { data: value }
    }

    /// Get a value at the given JSON Pointer path.
    pub fn get(&self, path: &str) -> (r: Option<JsonValue>)
        ensures
            r.deep_view() == resolve_path(self@, path@),
    {
        resolve(&self.data, path)
    }

    /// Get a value at a path that may be relative to a base path.
    ///
    /// If `path` starts with `/`, it is absolute; otherwise it is joined with
    /// `base_path`.
    pub fn get_relative(&self, path: &str, base_path: &str) -> (r: Option<JsonValue>)
        ensures
            r.deep_view() == resolve_path(self@, absolute_path(path@, base_path@)),
    {
        let abs = make_absolute(path, base_path);
        self.get(abs.as_str())
    }

    /// Set a value at the given JSON Pointer path.
    ///
    /// Auto-vivifies intermediate objects/arrays.
    pub fn set(&mut self, path: &str, value: JsonValue)
        ensures
            final(self)@ == set_path(old(self)@, path@, value@),
    {
        set_at_path(&mut self.data, path, value);
    }

    /// Remove a value at the given JSON Pointer path.
    ///
    /// Returns the removed value, if any.
    pub fn remove(&mut self, path: &str) -> (r: Option<JsonValue>)
        ensures
            final(self)@ == remove_path(old(self)@, path@).0,
            r.deep_view() == remove_path(old(self)@, path@).1,
    {
        remove_at_path(&mut self.data, path)
    }

    /// Replace the entire data model.
    pub fn replace(&mut self, value: JsonValue)
        ensures
            final(self)@ == value@,
    {
        self.data = value;
    }

    /// Snapshot the current data model value (cloned).
    pub fn snapshot(&self) -> (r: JsonValue)
        ensures
            r@ == self@,
    {
        self.data.deep_clone()
    }

    /// A copy of the data model.
    pub fn copy(&self) -> (r: DataModel)
        ensures
            r@ == self@,
    {
        DataModel { data: self.data.deep_clone() }
    }
}

impl Default for DataModel {
    fn default() -> (r: Self)
        ensures
            r@ == empty_object(),
    {
        Self::new()
    }
}

} // verus!
