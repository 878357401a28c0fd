//! What the catalog components decide before they draw: which element and
//! classes a component gets, which children it has, and what a button
//! sends. The drawing itself belongs to the UI layer.

use vstd::prelude::*;

use crate::catalog::minimal_component_types;
use crate::component::{str_prop, ComponentModel, ComponentView};
use crate::data_model::DataModel;
use crate::json::{get_str, items_view, lemma_items_view, value_get, JsonValue, JsonView};
use crate::pointer::{absolute_path, is_root_path, make_absolute, resolve_path};
use crate::protocol::{ClientAction, ClientActionView};
use crate::text::{
    all_digits, chars_of, decimal_value, digit_value, is_digit, pointer_index, push_char, split_on,
    str_is, string_of,
};

verus! {

/// The catalog component a component type names.
#[derive(Debug, PartialEq, Eq)]
pub enum ComponentKind {
    Text,
    Row,
    Column,
    Button,
    TextField,
    /// A type this renderer does not know.
    Fallback,
}

/// The component a type name is drawn with.
pub open spec fn kind_of(t: Seq<char>) -> ComponentKind {
    if t == "Text"@ {
        ComponentKind::Text
    } else if t == "Row"@ {
        ComponentKind::Row
    } else if t == "Column"@ {
        ComponentKind::Column
    } else if t == "Button"@ {
        ComponentKind::Button
    } else if t == "TextField"@ {
        ComponentKind::TextField
    } else {
        ComponentKind::Fallback
    }
}

/// The component type a catalog component draws; none for the fallback.
pub open spec fn kind_name(k: ComponentKind) -> Option<Seq<char>> {
    match k {
        ComponentKind::Text => Some("Text"@),
        ComponentKind::Row => Some("Row"@),
        ComponentKind::Column => Some("Column"@),
        ComponentKind::Button => Some("Button"@),
        ComponentKind::TextField => Some("TextField"@),
        ComponentKind::Fallback => None,
    }
}

/// Every component type of the minimal catalog is drawn by the catalog
/// component of that name, and every other type by the fallback.
pub proof fn law_catalog_types_have_their_component(t: Seq<char>)
    ensures
        minimal_component_types().contains(t) ==> kind_name(kind_of(t)) == Some(t),
        !minimal_component_types().contains(t) ==> kind_of(t) == ComponentKind::Fallback,
{
    reveal_strlit("Text");
    reveal_strlit("Row");
    reveal_strlit("Column");
    reveal_strlit("Button");
    reveal_strlit("TextField");
}

/// Which catalog component draws a component of this type.
pub fn component_kind(component_type: &str) -> (r: ComponentKind)
    ensures
        r == kind_of(component_type@),
{
    if str_is(component_type, "Text") {
        ComponentKind::Text
    } else if str_is(component_type, "Row") {
        ComponentKind::Row
    } else if str_is(component_type, "Column") {
        ComponentKind::Column
    } else if str_is(component_type, "Button") {
        ComponentKind::Button
    } else if str_is(component_type, "TextField") {
        ComponentKind::TextField
    } else {
        ComponentKind::Fallback
    }
}

/// The CSS classes of a button of the given variant.
pub open spec fn button_class_spec(variant: Seq<char>) -> Seq<char> {
    if variant == "primary"@ {
        "a2ui-button a2ui-button-primary"@
    } else if variant == "borderless"@ {
        "a2ui-button a2ui-button-borderless"@
    } else {
        "a2ui-button"@
    }
}

/// The CSS classes of a button of the given variant.
pub fn button_class(variant: &str) -> (r: &'static str)
    ensures
        r@ == button_class_spec(variant@),
{
    if str_is(variant, "primary") {
        "a2ui-button a2ui-button-primary"
    } else if str_is(variant, "borderless") {
        "a2ui-button a2ui-button-borderless"
    } else {
        "a2ui-button"
    }
}

/// The CSS `justify-content` of a row or column `justify` property.
pub open spec fn justify_spec(v: Seq<char>) -> Seq<char> {
    if v == "center"@ {
        "center"@
    } else if v == "end"@ {
        "flex-end"@
    } else if v == "spaceBetween"@ {
        "space-between"@
    } else if v == "spaceAround"@ {
        "space-around"@
    } else if v == "spaceEvenly"@ {
        "space-evenly"@
    } else if v == "stretch"@ {
        "stretch"@
    } else {
        "flex-start"@
    }
}

/// The CSS `justify-content` of a row or column `justify` property.
pub fn justify_css(v: &str) -> (r: &'static str)
    ensures
        r@ == justify_spec(v@),
{
    if str_is(v, "center") {
        "center"
    } else if str_is(v, "end") {
        "flex-end"
    } else if str_is(v, "spaceBetween") {
        "space-between"
    } else if str_is(v, "spaceAround") {
        "space-around"
    } else if str_is(v, "spaceEvenly") {
        "space-evenly"
    } else if str_is(v, "stretch") {
        "stretch"
    } else {
        "flex-start"
    }
}

/// The CSS `align-items` of a row or column `align` property.
pub open spec fn align_spec(v: Seq<char>) -> Seq<char> {
    if v == "center"@ {
        "center"@
    } else if v == "end"@ {
        "flex-end"@
    } else if v == "stretch"@ {
        "stretch"@
    } else {
        "flex-start"@
    }
}

/// The CSS `align-items` of a row or column `align` property.
pub fn align_css(v: &str) -> (r: &'static str)
    ensures
        r@ == align_spec(v@),
{
    if str_is(v, "center") {
        "center"
    } else if str_is(v, "end") {
        "flex-end"
    } else if str_is(v, "stretch") {
        "stretch"
    } else {
        "flex-start"
    }
}

/// The element a text is drawn as.
#[derive(Debug, PartialEq, Eq)]
pub enum TextElement {
    H1,
    H2,
    H3,
    H4,
    H5,
    Caption,
    Body,
}

/// The element for a text `variant`.
pub open spec fn text_element_spec(v: Seq<char>) -> TextElement {
    if v == "h1"@ {
        TextElement::H1
    } else if v == "h2"@ {
        TextElement::H2
    } else if v == "h3"@ {
        TextElement::H3
    } else if v == "h4"@ {
        TextElement::H4
    } else if v == "h5"@ {
        TextElement::H5
    } else if v == "caption"@ {
        TextElement::Caption
    } else {
        TextElement::Body
    }
}

/// The element for a text `variant`.
pub fn text_element(variant: &str) -> (r: TextElement)
    ensures
        r == text_element_spec(variant@),
{
    if str_is(variant, "h1") {
        TextElement::H1
    } else if str_is(variant, "h2") {
        TextElement::H2
    } else if str_is(variant, "h3") {
        TextElement::H3
    } else if str_is(variant, "h4") {
        TextElement::H4
    } else if str_is(variant, "h5") {
        TextElement::H5
    } else if str_is(variant, "caption") {
        TextElement::Caption
    } else {
        TextElement::Body
    }
}

/// The input type of a text field `variant`: hidden input for `obscured`.
pub fn text_field_input_type(variant: &str) -> (r: &'static str)
    ensures
        r@ == if variant@ == "obscured"@ {
            "password"@
        } else {
            "text"@
        },
{
    if str_is(variant, "obscured") {
        "password"
    } else {
        "text"
    }
}

/// Whether a text field `variant` asks for a multi-line input.
pub fn text_field_is_long(variant: &str) -> (r: bool)
    ensures
        r == (variant@ == "longText"@),
{
    str_is(variant, "longText")
}

/// The string items of a value, in order; none for a value that is not an
/// array.
pub open spec fn string_items(v: JsonView) -> Seq<Seq<char>>
    decreases v,
{
    match v {
        JsonView::Array(items) => strings_of(items),
        _ => Seq::empty(),
    }
}

/// The strings among the values, in order.
pub open spec fn strings_of(items: Seq<JsonView>) -> Seq<Seq<char>>
    decreases items.len(),
{
    if items.len() == 0 {
        Seq::empty()
    } else {
        let rest = strings_of(items.drop_last());
        match items.last() {
            JsonView::Str(s) => rest.push(s),
            _ => rest,
        }
    }
}

/// The IDs of a component's static children: the strings of its `children`
/// property when that is an array.
pub open spec fn static_children_spec(c: ComponentView) -> Seq<Seq<char>> {
    match value_get(c.properties, "children"@) {
        Some(v) => string_items(v),
        None => Seq::empty(),
    }
}

fn strings_in(items: &Vec<JsonValue>) -> (r: Vec<String>)
    ensures
        r.deep_view() == strings_of(items_view(items@)),
{
    let mut out: Vec<String> = Vec::new();
    let mut i: usize = 0;
    proof {
        assert(items@.take(0) =~= Seq::<JsonValue>::empty());
        assert(out.deep_view() =~= Seq::<Seq<char>>::empty());
    }
    while i < items.len()
        invariant
            i <= items@.len(),
            out.deep_view() == strings_of(items_view(items@.take(i as int))),
        decreases items.len() - i,
    {
        proof {
            crate::json::lemma_items_view_push(items@.take(i as int), items@[i as int]);
            assert(items@.take(i + 1) =~= items@.take(i as int).push(items@[i as int]));
            let s = items_view(items@.take(i + 1));
            assert(s.drop_last() == items_view(items@.take(i as int)));
            assert(s.last() == items@[i as int]@);
        }
        match &items[i] {
            JsonValue::String(s) => {
                let ghost before = out.deep_view();
                out.push(s.clone());
                proof {
                    assert(out.deep_view() =~= before.push(s@));
                }
            },
            _ => {},
        }
        i = i + 1;
    }
    proof {
        assert(items@.take(i as int) =~= items@);
    }
    out
}

/// Extract static child IDs from a component's `children` property.
pub fn get_static_children(model: &ComponentModel) -> (r: Vec<String>)
    ensures
        r.deep_view() == static_children_spec(model@),
{
    match model.get_prop("children") {
        Some(JsonValue::Array(items)) => strings_in(items),
        _ => {
            let r: Vec<String> = Vec::new();
            proof {
                assert(r.deep_view() =~= Seq::<Seq<char>>::empty());
            }
            r
        },
    }
}

// ---------------------------------------------------------------------------
// Collection templates
// ---------------------------------------------------------------------------

/// The decimal digits of a number, as `Display` for integers writes them.
pub open spec fn decimal_text(n: nat) -> Seq<char>
    decreases n,
{
    if n < 10 {
        seq![digit_char(n)]
    } else {
        decimal_text(n / 10).push(digit_char(n % 10))
    }
}

/// The digit character of a number below ten.
pub open spec fn digit_char(d: nat) -> char {
    if d == 0 {
        '0'
    } else if d == 1 {
        '1'
    } else if d == 2 {
        '2'
    } else if d == 3 {
        '3'
    } else if d == 4 {
        '4'
    } else if d == 5 {
        '5'
    } else if d == 6 {
        '6'
    } else if d == 7 {
        '7'
    } else if d == 8 {
        '8'
    } else {
        '9'
    }
}

fn digit(d: usize) -> (r: char)
    requires
        d < 10,
    ensures
        r == digit_char(d as nat),
{
    if d == 0 {
        '0'
    } else if d == 1 {
        '1'
    } else if d == 2 {
        '2'
    } else if d == 3 {
        '3'
    } else if d == 4 {
        '4'
    } else if d == 5 {
        '5'
    } else if d == 6 {
        '6'
    } else if d == 7 {
        '7'
    } else if d == 8 {
        '8'
    } else {
        '9'
    }
}

/// Appends the decimal digits of `n`.
fn push_decimal(out: &mut Vec<char>, n: usize)
    ensures
        final(out)@ == old(out)@ + decimal_text(n as nat),
    decreases n,
{
    if n < 10 {
        out.push(digit(n));
    } else {
        push_decimal(out, n / 10);
        out.push(digit(n % 10));
    }
}

/// The digit of a number below ten is a digit with that value, `0` only
/// for zero.
proof fn lemma_digit_char(d: nat)
    requires
        d < 10,
    ensures
        is_digit(digit_char(d)),
        digit_value(digit_char(d)) == d,
        (digit_char(d) == '0') == (d == 0),
{
}

/// A digit is the digit of its value.
proof fn lemma_digit_of_value(c: char)
    requires
        is_digit(c),
    ensures
        digit_value(c) < 10,
        digit_char(digit_value(c)) == c,
{
    let n = c as u32;
    assert(48 <= n <= 57);
    if n == 48 {
        assert(c == '0');
    } else if n == 49 {
        assert(c == '1');
    } else if n == 50 {
        assert(c == '2');
    } else if n == 51 {
        assert(c == '3');
    } else if n == 52 {
        assert(c == '4');
    } else if n == 53 {
        assert(c == '5');
    } else if n == 54 {
        assert(c == '6');
    } else if n == 55 {
        assert(c == '7');
    } else if n == 56 {
        assert(c == '8');
    } else {
        assert(c == '9');
    }
}

/// The decimal text of a number is digits whose value is the number, with
/// no leading zero.
proof fn lemma_decimal_text(n: nat)
    ensures
        decimal_text(n).len() > 0,
        all_digits(decimal_text(n)),
        decimal_value(decimal_text(n)) == n,
        n > 0 ==> decimal_text(n)[0] != '0',
        n < 10 <==> decimal_text(n).len() == 1,
    decreases n,
{
    if n < 10 {
        lemma_digit_char(n);
        let s = decimal_text(n);
        assert(s.drop_last() =~= Seq::<char>::empty());
        assert(decimal_value(s) == decimal_value(s.drop_last()) * 10 + digit_value(s.last()));
    } else {
        let s = decimal_text(n);
        let h = decimal_text(n / 10);
        lemma_decimal_text(n / 10);
        lemma_digit_char(n % 10);
        assert(s.drop_last() =~= h);
        assert(s[0] == h[0]);
        assert forall|i: int| 0 <= i < s.len() implies is_digit(#[trigger] s[i]) by {
            if i < h.len() {
                assert(s[i] == h[i]);
            }
        }
        assert(s.last() == digit_char(n % 10));
        assert(decimal_value(s) == decimal_value(h) * 10 + digit_value(s.last()));
        assert(n == (n / 10) * 10 + n % 10) by (nonlinear_arith);
    }
}

/// The value of digits is at least that of their first digit.
proof fn lemma_decimal_value_first(d: Seq<char>)
    requires
        d.len() > 0,
    ensures
        decimal_value(d) >= digit_value(d[0]),
    decreases d.len(),
{
    if d.len() > 1 {
        lemma_decimal_value_first(d.drop_last());
        assert(d.drop_last()[0] == d[0]);
    }
}

/// Digits with no leading zero are the decimal text of their value.
proof fn lemma_canonical_digits(t: Seq<char>)
    requires
        t.len() > 0,
        all_digits(t),
        t.len() > 1 ==> t[0] != '0',
    ensures
        t == decimal_text(decimal_value(t)),
    decreases t.len(),
{
    let n = decimal_value(t);
    if t.len() == 1 {
        assert(t.drop_last().len() == 0);
        assert(is_digit(t[0]));
        lemma_digit_of_value(t[0]);
        assert(t.last() == t[0]);
        assert(decimal_value(t.drop_last()) == 0);
        assert(n == digit_value(t[0]));
        assert(decimal_text(n) == seq![digit_char(n)]);
        assert(t =~= seq![digit_char(n)]);
    } else {
        let h = t.drop_last();
        assert(h[0] == t[0]);
        assert(all_digits(h)) by {
            assert forall|i: int| 0 <= i < h.len() implies is_digit(#[trigger] h[i]) by {
                assert(h[i] == t[i]);
            }
        }
        assert(is_digit(t.last())) by {
            assert(t.last() == t[t.len() - 1]);
        }
        lemma_canonical_digits(h);
        lemma_digit_of_value(t.last());
        lemma_decimal_value_first(h);
        assert(digit_value(h[0]) >= 1) by {
            assert(is_digit(h[0]));
            if digit_value(h[0]) == 0 {
                lemma_digit_of_value(h[0]);
            }
        }
        let a = decimal_value(h);
        let b = digit_value(t.last());
        assert(n == a * 10 + b);
        assert(h == decimal_text(a));
        assert(n / 10 == a && n % 10 == b && n >= 10) by (nonlinear_arith)
            requires
                n == a * 10 + b,
                b < 10,
                a >= 1,
        ;
        assert(t =~= h.push(t.last()));
    }
}

/// Index text reads back as its index: JSON Pointer lookup reads the
/// decimal text of any `usize` as that number.
pub proof fn law_decimal_index(n: usize)
    ensures
        pointer_index(decimal_text(n as nat)) == Some(n),
{
    lemma_decimal_text(n as nat);
    let t = decimal_text(n as nat);
    assert(is_digit(t[0]));
}

/// Two tokens that JSON Pointer lookup reads as the same index are the same
/// token.
pub proof fn lemma_pointer_index_injective(a: Seq<char>, b: Seq<char>)
    requires
        pointer_index(a) is Some,
        pointer_index(a) == pointer_index(b),
    ensures
        a == b,
{
    assert(a.len() > 0 && all_digits(a));
    assert(b.len() > 0 && all_digits(b));
    lemma_canonical_digits(a);
    lemma_canonical_digits(b);
}

/// The base path of item `i` of a template bound to `path`: the path made
/// absolute against the context's base, then `/` and the index.
pub open spec fn item_base_path(path: Seq<char>, base: Seq<char>, i: nat) -> Seq<char> {
    absolute_path(path, base) + seq!['/'] + decimal_text(i)
}

/// How many items a template bound to `path` repeats over: the length of
/// the array found there, none when there is no array.
pub open spec fn template_count(data: JsonView, path: Seq<char>, base: Seq<char>) -> nat {
    match resolve_path(data, absolute_path(path, base)) {
        Some(JsonView::Array(items)) => items.len(),
        _ => 0,
    }
}

/// The children of a container.
#[derive(Debug)]
pub enum Children {
    /// Child component IDs, each drawn in the container's own context.
    Static(Vec<String>),
    /// One copy of a template component per array item, each in the base
    /// path of its item.
    Template { component_id: String, base_paths: Vec<String> },
    /// A `children` value of any other form: no children.
    Empty,
}

/// The template's item base paths, for the first `n` items.
pub open spec fn item_paths(path: Seq<char>, base: Seq<char>, n: nat) -> Seq<Seq<char>> {
    Seq::new(n, |i: int| item_base_path(path, base, i as nat))
}

/// The model of a container's children.
pub enum ChildrenView {
    Static(Seq<Seq<char>>),
    Template { component_id: Seq<char>, base_paths: Seq<Seq<char>> },
    Empty,
}

impl DeepView for Children {
    type V = ChildrenView;

    open spec fn deep_view(&self) -> ChildrenView {
        match self {
            Children::Static(ids) => ChildrenView::Static(ids.deep_view()),
            Children::Template { component_id, base_paths } => ChildrenView::Template {
                component_id: component_id@,
                base_paths: base_paths.deep_view(),
            },
            Children::Empty => ChildrenView::Empty,
        }
    }
}

/// The children a `children` property gives, in a context with the given
/// data and base path: an array lists child IDs (its strings); an object is
/// a template, its `componentId` repeated once per item of the array at its
/// `path`.
pub open spec fn children_spec(children: Option<JsonView>, data: JsonView, base: Seq<char>) -> ChildrenView {
    match children {
        Some(JsonView::Array(items)) => ChildrenView::Static(strings_of(items)),
        Some(JsonView::Object(es)) => {
            let t = JsonView::Object(es);
            let path = match get_str(t, "path"@) {
                Some(p) => p,
                None => Seq::empty(),
            };
            ChildrenView::Template {
                component_id: match get_str(t, "componentId"@) {
                    Some(id) => id,
                    None => Seq::empty(),
                },
                base_paths: item_paths(path, base, template_count(data, path, base)),
            }
        },
        _ => ChildrenView::Empty,
    }
}

/// The `path` a template object binds to (empty when it has none).
pub open spec fn template_path(t: JsonView) -> Seq<char> {
    match get_str(t, "path"@) {
        Some(p) => p,
        None => Seq::empty(),
    }
}

/// Each template item's base path names that item: when a template's path,
/// made absolute against an absolute (or empty) base, finds an array away
/// from the root, there is one base path per item, and the `i`th resolves
/// to the `i`th item.
pub proof fn law_template_paths_find_items(
    es: Seq<(Seq<char>, JsonView)>,
    data: JsonView,
    base: Seq<char>,
    items: Seq<JsonView>,
    i: int,
)
    requires
        base.len() == 0 || base[0] == '/',
        !is_root_path(absolute_path(template_path(JsonView::Object(es)), base)),
        resolve_path(data, absolute_path(template_path(JsonView::Object(es)), base)) == Some(
            JsonView::Array(items),
        ),
        items.len() <= usize::MAX,
        0 <= i < items.len(),
    ensures
        children_spec(Some(JsonView::Object(es)), data, base) matches ChildrenView::Template {
            base_paths,
            ..
        } && base_paths.len() == items.len() && resolve_path(data, base_paths[i]) == Some(items[i]),
{
    let path = template_path(JsonView::Object(es));
    let pp = absolute_path(path, base);
    crate::pointer::law_make_absolute(path, base);
    let d = decimal_text(i as nat);
    let q = pp + seq!['/'] + d;
    law_decimal_index(i as usize);
    lemma_decimal_text(i as nat);
    assert forall|k: int| 0 <= k < d.len() implies #[trigger] d[k] != '/' && d[k] != '~' by {
        assert(is_digit(d[k]));
    }
    crate::text::lemma_split_append(pp, d, '/');
    crate::text::lemma_split_on_nonempty(pp, '/');
    crate::text::lemma_replace_pair_absent(d, '~', '1', '/');
    crate::text::lemma_replace_pair_absent(d, '~', '0', '~');
    assert(crate::pointer::unescape(d) == d);
    assert(q[0] == '/');
    assert(!is_root_path(q)) by {
        assert(q.len() >= 3);
    }
    let all = split_on(pp, '/');
    let toks = all.push(d).drop_first();
    assert(toks =~= all.drop_first().push(d));
    assert(toks.drop_last() =~= all.drop_first());
    assert(toks.last() == d);
    crate::pointer::lemma_pointer_get_last(data, toks);
    assert(seq![d].drop_first() =~= Seq::<Seq<char>>::empty());
    assert(item_base_path(path, base, i as nat) == q);
    assert(pp[0] == '/');
    assert(resolve_path(data, pp) == crate::pointer::pointer_get(data, all.drop_first()));
    assert(split_on(q, '/') == all.push(d));
    assert(resolve_path(data, q) == crate::pointer::pointer_get(data, toks));
    let one = seq![d];
    assert(one[0] == d);
    assert(pointer_index(crate::pointer::unescape(one[0])) == Some(i as usize));
    assert((i as usize) as int == i);
    assert(crate::pointer::pointer_get(items[i], one.drop_first()) == Some(items[i]));
    assert(crate::pointer::pointer_get(JsonView::Array(items), one) == Some(items[i]));
    assert(resolve_path(data, q) == Some(items[i]));
    assert(template_count(data, path, base) == items.len());
    let bp = item_paths(path, base, items.len());
    assert(bp[i] == q);
    match get_str(JsonView::Object(es), "path"@) {
        Some(p0) => assert(p0 == path),
        None => assert(path == Seq::<char>::empty()),
    }
}

/// The children of a column (or any container) in a data context: a static
/// list of IDs, or a template repeated once per item of the array it is
/// bound to.
pub fn column_children(model: &ComponentModel, data_model: &DataModel, base_path: &str) -> (r: Children)
    ensures
        r.deep_view() == children_spec(value_get(model@.properties, "children"@), data_model@, base_path@),
{
    proof {
        reveal_strlit("");
    }
    match model.get_prop("children") {
        Some(JsonValue::Array(items)) => Children::Static(strings_in(items)),
        Some(tmpl) => match tmpl {
            JsonValue::Object(_) => {
                let template_id = match tmpl.get("componentId") {
                    Some(v) => match v.as_str() {
                        Some(s) => s.clone(),
                        None => String::new(),
                    },
                    None => String::new(),
                };
                let data_path: &str = match tmpl.get("path") {
                    Some(v) => match v.as_str() {
                        Some(s) => s.as_str(),
                        None => "",
                    },
                    None => "",
                };
                let abs = make_absolute(data_path, base_path);
                let got = data_model.get(abs.as_str());
                let count: usize = match &got {
                    Some(JsonValue::Array(a)) => {
                        proof {
                            lemma_items_view(a@);
                        }
                        a.len()
                    },
                    _ => 0,
                };
                proof {
                    assert(count as nat == template_count(data_model@, data_path@, base_path@));
                }
                let ghost paths = item_paths(data_path@, base_path@, count as nat);
                let abs_chars = chars_of(abs.as_str());
                let mut out: Vec<String> = Vec::new();
                let mut i: usize = 0;
                while i < count
                    invariant
                        i <= count,
                        abs_chars@ == absolute_path(data_path@, base_path@),
                        out.deep_view() == paths.take(i as int),
                        paths == item_paths(data_path@, base_path@, count as nat),
                    decreases count - i,
                {
                    let mut p = abs_chars.clone();
                    proof {
                        assert(p@ =~= abs_chars@);
                    }
                    p.push('/');
                    push_decimal(&mut p, i);
                    let s = string_of(&p);
                    proof {
                        assert(s@ =~= item_base_path(data_path@, base_path@, i as nat));
                        assert(paths[i as int] == item_base_path(data_path@, base_path@, i as nat));
                    }
                    let ghost before = out.deep_view();
                    out.push(s);
                    proof {
                        assert(paths.take(i + 1) =~= paths.take(i as int).push(paths[i as int]));
                        assert(out.deep_view() =~= before.push(s@));
                    }
                    i = i + 1;
                }
                proof {
                    assert(paths.take(i as int) =~= paths);
                    assert(tmpl@ is Object);
                    assert(data_path@ == match get_str(tmpl@, "path"@) { Some(p) => p, None => Seq::<char>::empty() });
                    assert(template_id@ == match get_str(tmpl@, "componentId"@) { Some(p) => p, None => Seq::<char>::empty() });
                }
                let r = Children::Template { component_id: template_id, base_paths: out };
                proof {
                    assert(r.deep_view() == children_spec(Some(tmpl@), data_model@, base_path@));
                }
                r
            },
            _ => Children::Empty,
        },
        None => Children::Empty,
    }
}

// ---------------------------------------------------------------------------
// Buttons and fallbacks
// ---------------------------------------------------------------------------

/// The action a button sends when clicked, if it has an `action` with an
/// `event`: the event's `name` (empty when not a string) and `context`
/// (null when absent), from the given surface and component, at the given
/// time.
pub open spec fn button_action_spec(
    properties: JsonView,
    surface_id: Seq<char>,
    component_id: Seq<char>,
    timestamp: Seq<char>,
) -> Option<ClientActionView> {
    match value_get(properties, "action"@) {
        Some(action) => match value_get(action, "event"@) {
            Some(event) => Some(
                ClientActionView {
                    name: match get_str(event, "name"@) {
                        Some(n) => n,
                        None => Seq::empty(),
                    },
                    surface_id: surface_id,
                    source_component_id: component_id,
                    timestamp: timestamp,
                    context: match value_get(event, "context"@) {
                        Some(c) => c,
                        None => JsonView::Null,
                    },
                },
            ),
            None => None,
        },
        None => None,
    }
}

/// The action a button sends when clicked, if any.
pub fn button_action(model: &ComponentModel, surface_id: &str, timestamp: String) -> (r: Option<
    ClientAction,
>)
    ensures
        r.deep_view() == button_action_spec(model@.properties, surface_id@, model@.id, timestamp@),
{
    proof {
        reveal_strlit("");
    }
    let action = match model.get_prop("action") {
        Some(a) => a,
        None => {
            return None;
        },
    };
    let event = match action.get("event") {
        Some(e) => e,
        None => {
            return None;
        },
    };
    let name = match event.get("name") {
        Some(n) => match n.as_str() {
            Some(s) => s.clone(),
            None => String::new(),
        },
        None => String::new(),
    };
    let context = match event.get("context") {
        Some(c) => c.deep_clone(),
        None => JsonValue::Null,
    };
    Some(
        ClientAction {
            name,
            surface_id: surface_id.to_owned(),
            source_component_id: model.id.clone(),
            timestamp,
            context,
        },
    )
}

/// The label of a component this renderer does not know:
/// `Unknown: <type> (id: <id>)`.
pub fn fallback_label(model: &ComponentModel) -> (r: String)
    ensures
        r@ == "Unknown: "@ + model@.component_type + " (id: "@ + model@.id + ")"@,
{
    let a = chars_of(model.component_type.as_str());
    let b = chars_of(" (id: ");
    let c = chars_of(model.id.as_str());
    let d = chars_of(")");
    let mut all: Vec<char> = chars_of("Unknown: ");
    all.append(&mut a.clone());
    all.append(&mut b.clone());
    all.append(&mut c.clone());
    all.append(&mut d.clone());
    string_of(&all)
}

} // verus!
