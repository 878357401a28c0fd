//! Catalog and function registry.
//!
//! A catalog defines which components and functions a surface supports.

use vstd::prelude::*;

use crate::context::OwnedDataContext;
use crate::functions::Capitalize;
use crate::json::{get_str, value_get, JsonValue, JsonView};
use crate::keyed::KeyedVec;
use crate::text::{chars_eq, chars_of};

verus! {

/// A client-side function implementation.
pub trait FunctionImpl: Send + Sync {
    /// The function's name.
    spec fn spec_name(&self) -> Seq<char>;

    /// What the function gives for its arguments, in a context with the
    /// given data and base path.
    spec fn spec_execute(&self, args: JsonView, data: JsonView, base: Seq<char>) -> JsonView;

    /// The function name (e.g., "capitalize", "formatString").
    fn name(&self) -> (r: &str)
        ensures
            r@ == self.spec_name(),
    ;

    /// Execute the function with the given arguments and data context.
    fn execute(&self, args: &JsonValue, ctx: &OwnedDataContext) -> (r: JsonValue)
        ensures
            r@ == self.spec_execute(args@, ctx.data(), ctx.base()),
    ;
}

/// The functions this library provides.
pub enum BuiltinFunction {
    Capitalize(Capitalize),
}

impl FunctionImpl for BuiltinFunction {
    open spec fn spec_name(&self) -> Seq<char> {
        match self {
            BuiltinFunction::Capitalize(f) => f.spec_name(),
        }
    }

    open spec fn spec_execute(&self, args: JsonView, data: JsonView, base: Seq<char>) -> JsonView {
        match self {
            BuiltinFunction::Capitalize(f) => f.spec_execute(args, data, base),
        }
    }

    fn name(&self) -> (r: &str) {
        match self {
            BuiltinFunction::Capitalize(f) => f.name(),
        }
    }

    fn execute(&self, args: &JsonValue, ctx: &OwnedDataContext) -> (r: JsonValue) {
        match self {
            BuiltinFunction::Capitalize(f) => f.execute(args, ctx),
        }
    }
}

/// The position of the first function registered under `name`, or the
/// number of functions when there is none.
pub open spec fn function_index<F>(fs: Seq<(String, F)>, name: Seq<char>) -> int
    decreases fs.len(),
{
    if fs.len() == 0 {
        0
    } else if fs[0].0@ == name {
        0
    } else {
        1 + function_index(fs.drop_first(), name)
    }
}

proof fn lemma_function_index<F>(fs: Seq<(String, F)>, name: Seq<char>, i: int)
    requires
        0 <= i <= fs.len(),
        forall|j: int| 0 <= j < i ==> #[trigger] fs[j].0@ != name,
        i == fs.len() || fs[i].0@ == name,
    ensures
        function_index(fs, name) == i,
    decreases i,
{
    if i > 0 {
        assert forall|j: int| 0 <= j < i - 1 implies #[trigger] fs.drop_first()[j].0@ != name by {
            assert(fs.drop_first()[j] == fs[j + 1]);
        }
        lemma_function_index(fs.drop_first(), name, i - 1);
    }
}

proof fn lemma_function_index_bounds<F>(fs: Seq<(String, F)>, name: Seq<char>)
    ensures
        0 <= function_index(fs, name) <= fs.len(),
        function_index(fs, name) < fs.len() ==> fs[function_index(fs, name)].0@ == name,
        forall|j: int| 0 <= j < function_index(fs, name) ==> #[trigger] fs[j].0@ != name,
    decreases fs.len(),
{
    if fs.len() > 0 && fs[0].0@ != name {
        lemma_function_index_bounds(fs.drop_first(), name);
        assert forall|j: int| 0 <= j < function_index(fs, name) implies #[trigger] fs[j].0@ != name by {
            if j > 0 {
                assert(fs.drop_first()[j - 1] == fs[j]);
            }
        }
    }
}

/// `after` is `before` with `func` registered under its name: in place of
/// the function of that name if there is one, else at the end; either way
/// it is then the function found under that name.
pub open spec fn registered<F: FunctionImpl>(
    before: Seq<(String, F)>,
    after: Seq<(String, F)>,
    func: F,
) -> bool {
    let i = function_index(before, func.spec_name());
    &&& after.len() == if i < before.len() {
        before.len()
    } else {
        before.len() + 1
    }
    &&& forall|j: int| 0 <= j < after.len() && j != i ==> #[trigger] after[j] == before[j]
    &&& after[i].0@ == func.spec_name()
    &&& after[i].1 == func
    &&& function_index(after, func.spec_name()) == i
}

/// The name a function call value calls: its `call` member when a string,
/// the empty name otherwise.
pub open spec fn call_name(call: JsonView) -> Seq<char> {
    match get_str(call, "call"@) {
        Some(n) => n,
        None => Seq::empty(),
    }
}

/// The arguments of a function call value: its `args` member, or null.
pub open spec fn call_args(call: JsonView) -> JsonView {
    match value_get(call, "args"@) {
        Some(a) => a,
        None => JsonView::Null,
    }
}

/// A catalog of known component types and functions of type `F`.
pub struct Catalog<F: FunctionImpl> {
    /// The catalog URI identifier.
    pub id: String,
    /// Known component type names.
    pub component_types: KeyedVec<()>,
    /// Registered function implementations, each under its name.
    pub functions: Vec<(String, F)>,
}

impl<F: FunctionImpl> Catalog<F> {
    /// The registered functions, in registration order, each with its name.
    pub open spec fn functions(&self) -> Seq<(String, F)> {
        self.functions@
    }

    /// Create a new empty catalog.
    pub fn new(id: &str) -> (r: Self)
        ensures
            r.id@ == id@,
            r.component_types@ == Map::<Seq<char>, ()>::empty(),
            r.functions().len() == 0,
    {
        Catalog { id: id.to_owned(), component_types: KeyedVec::new(), functions: Vec::new() }
    }

    /// Register a component type as known.
    pub fn register_component(&mut self, name: &str)
        ensures
            final(self).id == old(self).id,
            final(self).component_types@ == old(self).component_types@.insert(name@, ()),
            final(self).functions() == old(self).functions(),
    {
        self.component_types.insert(name.to_owned(), ());
    }

    /// Register a function implementation under its name, replacing any
    /// function registered under the same name.
    pub fn register_function(&mut self, func: F)
        ensures
            final(self).id == old(self).id,
            final(self).component_types@ == old(self).component_types@,
            registered(old(self).functions(), final(self).functions(), func),
    {
        let name = func.name();
        let key = chars_of(name);
        let i = self.find_function(&key);
        let name_owned = name.to_owned();
        let ghost old_fs = self.functions@;
        proof {
            lemma_function_index_bounds(old_fs, key@);
        }
        if i < self.functions.len() {
            self.functions.set(i, (name_owned, func));
        } else {
            self.functions.push((name_owned, func));
        }
        proof {
            assert forall|j: int| 0 <= j < i implies #[trigger] self.functions@[j].0@ != key@ by {
                assert(self.functions@[j] == old_fs[j]);
            }
            lemma_function_index(self.functions@, key@, i as int);
        }
    }

    fn find_function(&self, name: &Vec<char>) -> (r: usize)
        ensures
            r == function_index(self.functions(), name@),
            r <= self.functions().len(),
    {
        let mut i: usize = 0;
        while i < self.functions.len()
            invariant
                i <= self.functions@.len(),
                forall|j: int| 0 <= j < i ==> #[trigger] self.functions@[j].0@ != name@,
            decreases self.functions.len() - i,
        {
            let k = chars_of(self.functions[i].0.as_str());
            if chars_eq(&k, name) {
                proof {
                    lemma_function_index(self.functions@, name@, i as int);
                }
                return i;
            }
            i = i + 1;
        }
        proof {
            lemma_function_index(self.functions@, name@, i as int);
        }
        i
    }

    /// Check if a component type is known to this catalog.
    pub fn has_component(&self, name: &str) -> (r: bool)
        ensures
            r == self.component_types@.contains_key(name@),
    {
        self.component_types.contains_key(name)
    }

    /// Execute a function call.
    ///
    /// The `call_value` should be the full function call JSON:
    /// `{"call": "name", "args": {...}, "returnType": "string"}`.
    /// Gives null when no function is registered under the called name.
    pub fn execute_function(&self, call_value: &JsonValue, ctx: &OwnedDataContext) -> (r: JsonValue)
        ensures
            ({
                let i = function_index(self.functions(), call_name(call_value@));
                r@ == if i < self.functions().len() {
                    self.functions()[i].1.spec_execute(
                        call_args(call_value@),
                        ctx.data(),
                        ctx.base(),
                    )
                } else {
                    JsonView::Null
                }
            }),
    {
        proof {
            reveal_strlit("");
        }
        let name: &str = match call_value.get("call") {
            Some(v) => match v.as_str() {
                Some(s) => s.as_str(),
                None => "",
            },
            None => "",
        };
        let args = match call_value.get("args") {
            Some(a) => a.deep_clone(),
            None => JsonValue::Null,
        };
        let key = chars_of(name);
        proof {
            assert(key@ == call_name(call_value@));
            assert(args@ == call_args(call_value@));
        }
        let i = self.find_function(&key);
        if i < self.functions.len() {
            self.functions[i].1.execute(&args, ctx)
        } else {
            JsonValue::Null
        }
    }
}

/// The URI of the minimal catalog.
pub open spec fn minimal_catalog_id() -> Seq<char> {
    "https://a2ui.org/specification/v0_9/catalogs/minimal/minimal_catalog.json"@
}

/// The component types of the minimal catalog.
pub open spec fn minimal_component_types() -> Set<Seq<char>> {
    set!["Text"@, "Row"@, "Column"@, "Button"@, "TextField"@]
}

/// Build the minimal catalog with its component types and functions.
pub fn minimal_catalog() -> (r: Catalog<BuiltinFunction>)
    ensures
        r.id@ == minimal_catalog_id(),
        r.component_types@ == Map::<Seq<char>, ()>::empty().insert("Text"@, ()).insert(
            "Row"@,
            (),
        ).insert("Column"@, ()).insert("Button"@, ()).insert("TextField"@, ()),
        r.functions().len() == 1,
        r.functions()[0].0@ == crate::functions::capitalize_name(),
        r.functions()[0].1 == BuiltinFunction::Capitalize(Capitalize),
        r.component_types@.dom() == minimal_component_types(),
{
    let mut catalog = Catalog::new(
        "https://a2ui.org/specification/v0_9/catalogs/minimal/minimal_catalog.json",
    );
    catalog.register_component("Text");
    catalog.register_component("Row");
    catalog.register_component("Column");
    catalog.register_component("Button");
    catalog.register_component("TextField");
    catalog.register_function(BuiltinFunction::Capitalize(Capitalize));
    proof {
        assert(catalog.component_types@.dom() =~= minimal_component_types());
    }
    catalog
}

} // verus!
