//! Data contexts for scoped path resolution.
//!
//! A context pairs a data model with a base path, so that relative JSON
//! Pointers resolve within collection templates, where each iteration has a
//! different base path.

use vstd::prelude::*;

use crate::data_model::DataModel;
use crate::json::{get_str, has_key, json_text, JsonValue, JsonView};
use crate::pointer::{absolute_path, make_absolute, resolve_path};
use crate::text::{chars_have_nonzero_digit, has_nonzero_digit};

verus! {

/// The result of resolving a dynamic value.
#[derive(Debug, Clone)]
pub enum ResolvedValue {
    /// A concrete JSON value.
    Resolved(JsonValue),
    /// A function call that needs to be executed by the catalog function registry.
    FunctionCall(JsonValue),
}

/// The model of a resolved value.
pub enum ResolvedView {
    Resolved(JsonView),
    FunctionCall(JsonView),
}

impl View for ResolvedValue {
    type V = ResolvedView;

    open spec fn view(&self) -> ResolvedView {
        match self {
            ResolvedValue::Resolved(v) => ResolvedView::Resolved(v@),
            ResolvedValue::FunctionCall(v) => ResolvedView::FunctionCall(v@),
        }
    }
}

/// A dynamic value, resolved against `data` with base path `base`:
/// - a data binding `{"path": p}` is the value at `p` made absolute against
///   `base`, or null when there is none (or when `p` is not a string);
/// - a function call `{"call": ...}` is handed on as it is;
/// - anything else is a literal, returned as it is.
pub open spec fn resolve_dynamic_spec(data: JsonView, base: Seq<char>, v: JsonView) -> ResolvedView {
    if has_key(v, "path"@) {
        match get_str(v, "path"@) {
            Some(p) => ResolvedView::Resolved(
                match resolve_path(data, absolute_path(p, base)) {
                    Some(x) => x,
                    None => JsonView::Null,
                },
            ),
            None => ResolvedView::Resolved(JsonView::Null),
        }
    } else if has_key(v, "call"@) {
        ResolvedView::FunctionCall(v)
    } else {
        ResolvedView::Resolved(v)
    }
}

/// A dynamic value resolved to a concrete value: function calls give null.
pub open spec fn resolve_value_spec(data: JsonView, base: Seq<char>, v: JsonView) -> JsonView {
    match resolve_dynamic_spec(data, base, v) {
        ResolvedView::Resolved(x) => x,
        ResolvedView::FunctionCall(_) => JsonView::Null,
    }
}

/// How a value reads as text: a string as itself, null as the empty string,
/// anything else as its compact JSON text.
pub open spec fn text_form(v: JsonView) -> Seq<char> {
    match v {
        JsonView::Str(s) => s,
        JsonView::Null => Seq::empty(),
        _ => json_text(v),
    }
}

/// How a value reads as a flag: a bool as itself, null as false, a string
/// when not empty, a number when not zero, arrays and objects as true.
pub open spec fn truthy(v: JsonView) -> bool {
    match v {
        JsonView::Bool(b) => b,
        JsonView::Null => false,
        JsonView::Str(s) => s.len() > 0,
        JsonView::Number(t) => has_nonzero_digit(t),
        _ => true,
    }
}

/// The absolute path a two-way binding writes to: the binding's `path`
/// made absolute against `base`.
pub open spec fn binding_path_spec(v: JsonView, base: Seq<char>) -> Option<Seq<char>> {
    match get_str(v, "path"@) {
        Some(p) => Some(absolute_path(p, base)),
        None => None,
    }
}

/// Whether a check's condition passes: true only for `true` and for any
/// value other than a bool or null.
pub open spec fn check_passes(v: JsonView) -> bool {
    match v {
        JsonView::Bool(b) => b,
        JsonView::Null => false,
        _ => true,
    }
}

/// The messages of the failed checks, in order. A check without a
/// `condition` is skipped; a failed check without a string `message` reads
/// "Validation failed".
pub open spec fn failed_checks_spec(data: JsonView, base: Seq<char>, checks: Seq<JsonView>) -> Seq<
    Seq<char>,
>
    decreases checks.len(),
{
    if checks.len() == 0 {
        Seq::empty()
    } else {
        let rest = failed_checks_spec(data, base, checks.drop_last());
        let check = checks.last();
        match crate::json::value_get(check, "condition"@) {
            Some(cond) => if check_passes(resolve_value_spec(data, base, cond)) {
                rest
            } else {
                rest.push(
                    match get_str(check, "message"@) {
                        Some(m) => m,
                        None => "Validation failed"@,
                    },
                )
            },
            None => rest,
        }
    }
}

fn resolve_dynamic_in(dm: &DataModel, base: &str, value: &JsonValue) -> (r: ResolvedValue)
    ensures
        r@ == resolve_dynamic_spec(dm@, base@, value@),
{
    if value.contains_key("path") {
        match value.get("path") {
            Some(p) => match p.as_str() {
                Some(path) => {
                    let abs = make_absolute(path.as_str(), base);
                    match dm.get(abs.as_str()) {
                        Some(x) => ResolvedValue::Resolved(x),
                        None => ResolvedValue::Resolved(JsonValue::Null),
                    }
                },
                None => ResolvedValue::Resolved(JsonValue::Null),
            },
            None => ResolvedValue::Resolved(JsonValue::Null),
        }
    } else if value.contains_key("call") {
        ResolvedValue::FunctionCall(value.deep_clone())
    } else {
        ResolvedValue::Resolved(value.deep_clone())
    }
}

fn resolve_value_in(dm: &DataModel, base: &str, value: &JsonValue) -> (r: JsonValue)
    ensures
        r@ == resolve_value_spec(dm@, base@, value@),
{
    match resolve_dynamic_in(dm, base, value) {
        ResolvedValue::Resolved(v) => v,
        ResolvedValue::FunctionCall(_) => JsonValue::Null,
    }
}

/// How a value reads as text.
pub fn text_of(v: &JsonValue) -> (r: String)
    ensures
        r@ == text_form(v@),
{
    match v {
        JsonValue::String(s) => s.clone(),
        JsonValue::Null => String::new(),
        _ => v.to_json_text(),
    }
}

/// How a value reads as a flag.
pub fn truth_of(v: &JsonValue) -> (r: bool)
    ensures
        r == truthy(v@),
{
    match v {
        JsonValue::Bool(b) => *b,
        JsonValue::Null => false,
        JsonValue::String(s) => !s.as_str().is_empty(),
        JsonValue::Number(t) => {
            let cs = crate::text::chars_of(t.as_str());
            chars_have_nonzero_digit(&cs)
        },
        _ => true,
    }
}

fn binding_path_in(base: &str, value: &JsonValue) -> (r: Option<String>)
    ensures
        r.deep_view() == binding_path_spec(value@, base@),
{
    match value.get("path") {
        Some(p) => match p.as_str() {
            Some(path) => Some(make_absolute(path.as_str(), base)),
            None => None,
        },
        None => None,
    }
}

/// Provides scoped access to the data model with a base path for relative
/// pointer resolution.
#[derive(Clone, Copy)]
pub struct DataContext<'a> {
    data_model: &'a DataModel,
    base_path: &'a str,
}

impl<'a> DataContext<'a> {
    /// The data the context reads.
    pub closed spec fn data(&self) -> JsonView {
        self.data_model@
    }

    /// The base path of the context.
    pub closed spec fn base(&self) -> Seq<char> {
        self.base_path@
    }

    /// Create a root-level data context (no base path).
    pub fn root(data_model: &'a DataModel) -> (r: Self)
        ensures
            r.data() == data_model@,
            r.base() == Seq::<char>::empty(),
    {
        proof {
            reveal_strlit("");
        }
        DataContext { data_model, base_path: "" }
    }

    /// Resolve a dynamic value.
    ///
    /// A dynamic value in A2UI can be:
    /// - A literal (string, number, boolean, array): returned as-is
    /// - A data binding `{"path": "..."}`: resolved against the data model
    /// - A function call `{"call": "...", "args": {...}}`: resolved by the caller
    pub fn resolve_dynamic(&self, value: &JsonValue) -> (r: ResolvedValue)
        ensures
            r@ == resolve_dynamic_spec(self.data(), self.base(), value@),
    {
        resolve_dynamic_in(self.data_model, self.base_path, value)
    }

    /// Resolve a dynamic value to a concrete JSON value.
    ///
    /// Function calls are not resolved here: they give null.
    pub fn resolve_value(&self, value: &JsonValue) -> (r: JsonValue)
        ensures
            r@ == resolve_value_spec(self.data(), self.base(), value@),
    {
        resolve_value_in(self.data_model, self.base_path, value)
    }

    /// Resolve a dynamic value to a string.
    pub fn resolve_string(&self, value: &JsonValue) -> (r: String)
        ensures
            r@ == text_form(resolve_value_spec(self.data(), self.base(), value@)),
    {
        let v = self.resolve_value(value);
        text_of(&v)
    }

    /// Resolve a dynamic value to a bool.
    pub fn resolve_bool(&self, value: &JsonValue) -> (r: bool)
        ensures
            r == truthy(resolve_value_spec(self.data(), self.base(), value@)),
    {
        let v = self.resolve_value(value);
        truth_of(&v)
    }

    /// Get the base path of this context.
    pub fn base_path(&self) -> (r: &str)
        ensures
            r@ == self.base(),
    {
        self.base_path
    }

    /// Get the underlying data model.
    pub fn data_model(&self) -> (r: &'a DataModel)
        ensures
            r@ == self.data(),
    {
        self.data_model
    }

    /// Resolve the binding path for two-way binding.
    ///
    /// Given a dynamic value that is a data binding, returns the absolute path
    /// for writing back to the data model.
    pub fn resolve_binding_path(&self, value: &JsonValue) -> (r: Option<String>)
        ensures
            r.deep_view() == binding_path_spec(value@, self.base()),
    {
        binding_path_in(self.base_path, value)
    }
}

/// A data context that owns its base path string, so that base paths built
/// at run time (e.g. for template iterations) can be held.
#[derive(Clone)]
pub struct OwnedDataContext<'a> {
    data_model: &'a DataModel,
    base_path: String,
}

impl<'a> OwnedDataContext<'a> {
    /// The data the context reads.
    pub closed spec fn data(&self) -> JsonView {
        self.data_model@
    }

    /// The base path of the context.
    pub closed spec fn base(&self) -> Seq<char> {
        self.base_path@
    }

    /// Create a root-level context.
    pub fn root(data_model: &'a DataModel) -> (r: Self)
        ensures
            r.data() == data_model@,
            r.base() == Seq::<char>::empty(),
    {
        OwnedDataContext { data_model, base_path: String::new() }
    }

    /// Create a child context with a new base path.
    pub fn with_base(data_model: &'a DataModel, base_path: String) -> (r: Self)
        ensures
            r.data() == data_model@,
            r.base() == base_path@,
    {
        OwnedDataContext { data_model, base_path }
    }

    /// Resolve a dynamic value.
    pub fn resolve_dynamic(&self, value: &JsonValue) -> (r: ResolvedValue)
        ensures
            r@ == resolve_dynamic_spec(self.data(), self.base(), value@),
    {
        resolve_dynamic_in(self.data_model, self.base_path.as_str(), value)
    }

    /// Resolve to a concrete value (function calls give null).
    pub fn resolve_value(&self, value: &JsonValue) -> (r: JsonValue)
        ensures
            r@ == resolve_value_spec(self.data(), self.base(), value@),
    {
        resolve_value_in(self.data_model, self.base_path.as_str(), value)
    }

    /// Resolve to a string.
    pub fn resolve_string(&self, value: &JsonValue) -> (r: String)
        ensures
            r@ == text_form(resolve_value_spec(self.data(), self.base(), value@)),
    {
        let v = self.resolve_value(value);
        text_of(&v)
    }

    /// Resolve the binding path for two-way binding.
    pub fn resolve_binding_path(&self, value: &JsonValue) -> (r: Option<String>)
        ensures
            r.deep_view() == binding_path_spec(value@, self.base()),
    {
        binding_path_in(self.base_path.as_str(), value)
    }

    /// Get the base path.
    pub fn base_path(&self) -> (r: &str)
        ensures
            r@ == self.base(),
    {
        self.base_path.as_str()
    }

    /// Get the data model.
    pub fn data_model(&self) -> (r: &'a DataModel)
        ensures
            r@ == self.data(),
    {
        self.data_model
    }

    /// The messages of the failed validation checks (components' `checks`),
    /// in order; none when every check passes.
    pub fn failed_checks(&self, checks: &Vec<JsonValue>) -> (r: Vec<String>)
        ensures
            r.deep_view() == failed_checks_spec(
                self.data(),
                self.base(),
                crate::json::items_view(checks@),
            ),
    {
        let mut out: Vec<String> = Vec::new();
        let mut i: usize = 0;
        proof {
            assert(checks@.take(0) =~= Seq::<JsonValue>::empty());
            assert(out.deep_view() =~= Seq::<Seq<char>>::empty());
        }
        while i < checks.len()
            invariant
                i <= checks@.len(),
                out.deep_view() == failed_checks_spec(
                    self.data(),
                    self.base(),
                    crate::json::items_view(checks@.take(i as int)),
                ),
            decreases checks.len() - i,
        {
            let check = &checks[i];
            proof {
                crate::json::lemma_items_view_push(checks@.take(i as int), checks@[i as int]);
                assert(checks@.take(i + 1) =~= checks@.take(i as int).push(checks@[i as int]));
                let s = crate::json::items_view(checks@.take(i + 1));
                assert(s.drop_last() == crate::json::items_view(checks@.take(i as int)));
                assert(s.last() == check@);
            }
            match check.get("condition") {
                Some(cond) => {
                    let resolved = self.resolve_value(cond);
                    let passes = match &resolved {
                        JsonValue::Bool(b) => *b,
                        JsonValue::Null => false,
                        _ => true,
                    };
                    if !passes {
                        let msg = match check.get("message") {
                            Some(m) => match m.as_str() {
                                Some(s) => s.clone(),
                                None => "Validation failed".to_owned(),
                            },
                            None => "Validation failed".to_owned(),
                        };
                        let ghost before = out.deep_view();
                        out.push(msg);
                        proof {
                            assert(out.deep_view() =~= before.push(msg@));
                        }
                    }
                },
                None => {},
            }
            i = i + 1;
        }
        proof {
            assert(checks@.take(i as int) =~= checks@);
        }
        out
    }
}

} // verus!
