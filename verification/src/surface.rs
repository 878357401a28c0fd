//! Surface models: the top-level containers for A2UI rendering.

use vstd::prelude::*;

use crate::component::{component_of, ComponentModel, ComponentView};
use crate::data_model::DataModel;
use crate::json::{empty_object, items_view, lemma_items_view_push, JsonValue, JsonView};
use crate::keyed::KeyedVec;
use crate::pointer::{remove_path, set_path};

verus! {

/// The model of a surface.
pub struct SurfaceView {
    pub id: Seq<char>,
    pub catalog_id: Seq<char>,
    pub theme: Option<JsonView>,
    pub send_data_model: bool,
    pub data: JsonView,
    pub components: Map<Seq<char>, ComponentView>,
}

/// A single A2UI surface: one rendered UI tree.
pub struct SurfaceModel {
    pub id: String,
    pub catalog_id: String,
    pub theme: Option<JsonValue>,
    pub send_data_model: bool,
    pub data_model: DataModel,
    pub components: KeyedVec<ComponentModel>,
}

impl View for SurfaceModel {
    type V = SurfaceView;

    open spec fn view(&self) -> SurfaceView {
        SurfaceView {
            id: self.id@,
            catalog_id: self.catalog_id@,
            theme: self.theme.deep_view(),
            send_data_model: self.send_data_model,
            data: self.data_model@,
            components: self.components@,
        }
    }
}

/// A surface as `createSurface` makes it: no data (an empty object) and no
/// components.
pub open spec fn fresh_surface(
    id: Seq<char>,
    catalog_id: Seq<char>,
    theme: Option<JsonView>,
    send_data_model: bool,
) -> SurfaceView {
    SurfaceView {
        id: id,
        catalog_id: catalog_id,
        theme: theme,
        send_data_model: send_data_model,
        data: empty_object(),
        components: Map::empty(),
    }
}

/// The components after upserting raw component values in order: each value
/// that describes a component replaces (or adds) the component with its id;
/// other values are skipped.
pub open spec fn upsert_spec(m: Map<Seq<char>, ComponentView>, raws: Seq<JsonView>) -> Map<
    Seq<char>,
    ComponentView,
>
    decreases raws.len(),
{
    if raws.len() == 0 {
        m
    } else {
        let m2 = upsert_spec(m, raws.drop_last());
        match component_of(raws.last()) {
            Some(c) => m2.insert(c.id, c),
            None => m2,
        }
    }
}

/// The data after an `updateDataModel`: the path defaults to `/`; a value
/// is set there, no value removes what is there.
pub open spec fn data_update_spec(data: JsonView, path: Option<Seq<char>>, value: Option<JsonView>) -> JsonView {
    let p = match path {
        Some(p) => p,
        None => seq!['/'],
    };
    match value {
        Some(v) => set_path(data, p, v),
        None => remove_path(data, p).0,
    }
}

/// A copy of an optional value.
pub fn clone_option(v: &Option<JsonValue>) -> (r: Option<JsonValue>)
    ensures
        r.deep_view() == v.deep_view(),
{
    match v {
        Some(x) => Some(x.deep_clone()),
        None => None,
    }
}

impl SurfaceModel {
    /// Create a new surface with the given ID and catalog.
    pub fn new(surface_id: &str, catalog_id: &str) -> (r: Self)
        ensures
            r@ == fresh_surface(surface_id@, catalog_id@, None, false),
    {
        SurfaceModel {
            id: surface_id.to_owned(),
            catalog_id: catalog_id.to_owned(),
            theme: None,
            send_data_model: false,
            data_model: DataModel::new(),
            components: KeyedVec::new(),
        }
    }

    /// Upsert components into this surface.
    ///
    /// Each component JSON value is parsed into a `ComponentModel` and inserted
    /// (or replaced) by its ID; values that are not components are skipped.
    pub fn upsert_components(&mut self, raw_components: &[JsonValue])
        ensures
            final(self)@ == (SurfaceView {
                components: upsert_spec(old(self)@.components, items_view(raw_components@)),
                ..old(self)@
            }),
    {
        let mut i: usize = 0;
        proof {
            assert(raw_components@.take(0) =~= Seq::<JsonValue>::empty());
        }
        while i < raw_components.len()
            invariant
                i <= raw_components@.len(),
                self@ == (SurfaceView {
                    components: upsert_spec(
                        old(self)@.components,
                        items_view(raw_components@.take(i as int)),
                    ),
                    ..old(self)@
                }),
            decreases raw_components.len() - i,
        {
            let raw = &raw_components[i];
            proof {
                lemma_items_view_push(raw_components@.take(i as int), raw_components@[i as int]);
                assert(raw_components@.take(i + 1) =~= raw_components@.take(i as int).push(
                    raw_components@[i as int],
                ));
                let s1 = items_view(raw_components@.take(i + 1));
                assert(s1.drop_last() =~= items_view(raw_components@.take(i as int)));
                assert(s1.last() == raw@);
            }
            match ComponentModel::from_value(raw) {
                Some(model) => {
                    let id = model.id.clone();
                    self.components.insert(id, model);
                },
                None => {},
            }
            i = i + 1;
        }
        proof {
            assert(raw_components@.take(i as int) =~= raw_components@);
        }
    }

    /// Get a component by ID (cloned snapshot).
    pub fn get_component(&self, id: &str) -> (r: Option<ComponentModel>)
        ensures
            match r {
                Some(c) => self@.components.contains_key(id@) && self@.components[id@] == c@,
                None => !self@.components.contains_key(id@),
            },
    {
        match self.components.get(id) {
            Some(c) => Some(c.deep_clone()),
            None => None,
        }
    }

    /// Update the data model at a given path (default `/`): set the value,
    /// or remove what is there when there is no value.
    pub fn update_data(&mut self, path: Option<&str>, value: Option<JsonValue>)
        ensures
            final(self)@ == (SurfaceView {
                data: data_update_spec(old(self)@.data, path.deep_view(), value.deep_view()),
                ..old(self)@
            }),
    {
        proof {
            reveal_strlit("/");
        }
        let p: &str = match path {
            Some(p) => p,
            None => "/",
        };
        proof {
            if path is None {
                assert("/"@ =~= seq!['/']);
            }
        }
        match value {
            Some(v) => self.data_model.set(p, v),
            None => {
                let _ = self.data_model.remove(p);
            },
        }
    }
}

/// A collection of all active surfaces.
pub struct SurfaceGroupModel {
    pub surfaces: KeyedVec<SurfaceModel>,
}

impl View for SurfaceGroupModel {
    type V = Map<Seq<char>, SurfaceView>;

    open spec fn view(&self) -> Map<Seq<char>, SurfaceView> {
        self.surfaces@
    }
}

impl SurfaceGroupModel {
    /// Create an empty surface group.
    pub fn new() -> (r: Self)
        ensures
            r@ == Map::<Seq<char>, SurfaceView>::empty(),
    {
        SurfaceGroupModel { surfaces: KeyedVec::new() }
    }

    /// Create a new surface and add it to the group, replacing any surface
    /// with the same ID. Returns a copy of the new surface.
    pub fn create_surface(
        &mut self,
        surface_id: &str,
        catalog_id: &str,
        theme: Option<JsonValue>,
        send_data_model: bool,
    ) -> (r: SurfaceModel)
        ensures
            r@ == fresh_surface(surface_id@, catalog_id@, theme.deep_view(), send_data_model),
            final(self)@ == old(self)@.insert(
                surface_id@,
                fresh_surface(surface_id@, catalog_id@, theme.deep_view(), send_data_model),
            ),
    {
        let mut surface = SurfaceModel::new(surface_id, catalog_id);
        let mut copy = SurfaceModel::new(surface_id, catalog_id);
        copy.theme = clone_option(&theme);
        copy.send_data_model = send_data_model;
        surface.theme = theme;
        surface.send_data_model = send_data_model;
        self.surfaces.insert(surface_id.to_owned(), surface);
        copy
    }

    /// Get a surface by ID.
    pub fn get_surface(&self, surface_id: &str) -> (r: Option<&SurfaceModel>)
        ensures
            match r {
                Some(s) => self@.contains_key(surface_id@) && self@[surface_id@] == s@,
                None => !self@.contains_key(surface_id@),
            },
    {
        self.surfaces.get(surface_id)
    }

    /// Delete a surface by ID. Returns whether there was one.
    pub fn delete_surface(&mut self, surface_id: &str) -> (r: bool)
        ensures
            r == old(self)@.contains_key(surface_id@),
            final(self)@ == old(self)@.remove(surface_id@),
    {
        self.surfaces.remove(surface_id).is_some()
    }

    /// Upsert components into the surface `surface_id`, if there is one.
    /// Returns whether there was.
    pub fn upsert_components(&mut self, surface_id: &str, raw_components: &[JsonValue]) -> (r: bool)
        ensures
            r == old(self)@.contains_key(surface_id@),
            final(self)@ == if r {
                old(self)@.insert(
                    surface_id@,
                    SurfaceView {
                        components: upsert_spec(
                            old(self)@[surface_id@].components,
                            items_view(raw_components@),
                        ),
                        ..old(self)@[surface_id@]
                    },
                )
            } else {
                old(self)@
            },
    {
        match self.surfaces.remove(surface_id) {
            Some(mut s) => {
                s.upsert_components(raw_components);
                self.surfaces.insert(surface_id.to_owned(), s);
                proof {
                    assert(self@ =~= old(self)@.insert(
                        surface_id@,
                        SurfaceView {
                            components: upsert_spec(
                                old(self)@[surface_id@].components,
                                items_view(raw_components@),
                            ),
                            ..old(self)@[surface_id@]
                        },
                    ));
                }
                true
            },
            None => {
                proof {
                    assert(old(self)@.remove(surface_id@) =~= old(self)@);
                }
                false
            },
        }
    }

    /// Update the data of the surface `surface_id`, if there is one.
    /// Returns whether there was.
    pub fn update_data(&mut self, surface_id: &str, path: Option<&str>, value: Option<JsonValue>) -> (r:
        bool)
        ensures
            r == old(self)@.contains_key(surface_id@),
            final(self)@ == if r {
                old(self)@.insert(
                    surface_id@,
                    SurfaceView {
                        data: data_update_spec(
                            old(self)@[surface_id@].data,
                            path.deep_view(),
                            value.deep_view(),
                        ),
                        ..old(self)@[surface_id@]
                    },
                )
            } else {
                old(self)@
            },
    {
        match self.surfaces.remove(surface_id) {
            Some(mut s) => {
                s.update_data(path, value);
                self.surfaces.insert(surface_id.to_owned(), s);
                proof {
                    assert(self@ =~= old(self)@.insert(
                        surface_id@,
                        SurfaceView {
                            data: data_update_spec(
                                old(self)@[surface_id@].data,
                                path.deep_view(),
                                value.deep_view(),
                            ),
                            ..old(self)@[surface_id@]
                        },
                    ));
                }
                true
            },
            None => {
                proof {
                    assert(old(self)@.remove(surface_id@) =~= old(self)@);
                }
                false
            },
        }
    }
}

impl Default for SurfaceGroupModel {
    fn default() -> (r: Self)
        ensures
            r@ == Map::<Seq<char>, SurfaceView>::empty(),
    {
        Self::new()
    }
}

// ---------------------------------------------------------------------------
// Laws
// ---------------------------------------------------------------------------

/// Whether no value of `raws` from position `from` on describes a component
/// with id `k`.
pub open spec fn names_no_component(raws: Seq<JsonView>, from: int, k: Seq<char>) -> bool {
    forall|j: int|
        from <= j < raws.len() ==> match component_of(#[trigger] raws[j]) {
            Some(d) => d.id != k,
            None => true,
        }
}

/// Upserting puts a component under its id: a value that describes a
/// component, with no later value for the same id, is what the id holds
/// afterwards.
pub proof fn law_upsert_then_get(m: Map<Seq<char>, ComponentView>, raws: Seq<JsonView>, i: int)
    requires
        0 <= i < raws.len(),
        component_of(raws[i]) is Some,
        names_no_component(raws, i + 1, component_of(raws[i])->0.id),
    ensures
        upsert_spec(m, raws).contains_key(component_of(raws[i])->0.id),
        upsert_spec(m, raws)[component_of(raws[i])->0.id] == component_of(raws[i])->0,
    decreases raws.len(),
{
    let k = component_of(raws[i])->0.id;
    let rest = raws.drop_last();
    if i < raws.len() - 1 {
        assert(names_no_component(rest, i + 1, k)) by {
            assert forall|j: int| i + 1 <= j < rest.len() implies match component_of(
                #[trigger] rest[j],
            ) {
                Some(d) => d.id != k,
                None => true,
            } by {
                assert(rest[j] == raws[j]);
            }
        }
        assert(rest[i] == raws[i]);
        law_upsert_then_get(m, rest, i);
        let last = raws[raws.len() - 1];
        assert(match component_of(last) {
            Some(d) => d.id != k,
            None => true,
        });
    }
}

/// Upserting leaves every component whose id no value names as it was, and
/// adds none under such an id.
pub proof fn law_upsert_keeps_others(m: Map<Seq<char>, ComponentView>, raws: Seq<JsonView>, k: Seq<char>)
    requires
        names_no_component(raws, 0, k),
    ensures
        upsert_spec(m, raws).contains_key(k) == m.contains_key(k),
        m.contains_key(k) ==> upsert_spec(m, raws)[k] == m[k],
    decreases raws.len(),
{
    if raws.len() > 0 {
        let rest = raws.drop_last();
        assert(names_no_component(rest, 0, k)) by {
            assert forall|j: int| 0 <= j < rest.len() implies match component_of(
                #[trigger] rest[j],
            ) {
                Some(d) => d.id != k,
                None => true,
            } by {
                assert(rest[j] == raws[j]);
            }
        }
        law_upsert_keeps_others(m, rest, k);
        let last = raws[raws.len() - 1];
        assert(match component_of(last) {
            Some(d) => d.id != k,
            None => true,
        });
    }
}

} // verus!
