//! Message processor: applies A2UI messages to the surface models.

use vstd::prelude::*;

use crate::json::{json_wf, JsonView};
use crate::pointer::{
    is_root_path, law_remove_elsewhere, law_remove_member_then_resolve, part_at, path_tokens,
    pointer_get, resolve_path,
};
use crate::protocol::{payload_of, A2uiMessage, MessagePayload, MessageView, PayloadView};
use crate::component::component_of;
use crate::surface::{
    clone_option, data_update_spec, fresh_surface, law_upsert_then_get, names_no_component,
    upsert_spec, SurfaceGroupModel, SurfaceView,
};

verus! {

/// The surfaces after one message:
/// - `createSurface` puts a fresh surface under its ID (replacing any);
/// - `updateComponents` and `updateDataModel` change the named surface, and
///   nothing when there is no such surface;
/// - `deleteSurface` removes the named surface;
/// - a message without a payload changes nothing.
pub open spec fn process_spec(g: Map<Seq<char>, SurfaceView>, m: MessageView) -> Map<
    Seq<char>,
    SurfaceView,
> {
    match payload_of(m) {
        Some(PayloadView::CreateSurface(cs)) => g.insert(
            cs.surface_id,
            fresh_surface(
                cs.surface_id,
                cs.catalog_id,
                cs.theme,
                match cs.send_data_model {
                    Some(b) => b,
                    None => false,
                },
            ),
        ),
        Some(PayloadView::UpdateComponents(uc)) => if g.contains_key(uc.surface_id) {
            g.insert(
                uc.surface_id,
                SurfaceView {
                    components: upsert_spec(g[uc.surface_id].components, uc.components),
                    ..g[uc.surface_id]
                },
            )
        } else {
            g
        },
        Some(PayloadView::UpdateDataModel(u)) => if g.contains_key(u.surface_id) {
            g.insert(
                u.surface_id,
                SurfaceView {
                    data: data_update_spec(g[u.surface_id].data, u.path, u.value),
                    ..g[u.surface_id]
                },
            )
        } else {
            g
        },
        Some(PayloadView::DeleteSurface(d)) => g.remove(d.surface_id),
        None => g,
    }
}

/// The surfaces after the messages, applied in order.
pub open spec fn process_all_spec(g: Map<Seq<char>, SurfaceView>, ms: Seq<MessageView>) -> Map<
    Seq<char>,
    SurfaceView,
>
    decreases ms.len(),
{
    if ms.len() == 0 {
        g
    } else {
        process_spec(process_all_spec(g, ms.drop_last()), ms.last())
    }
}

/// The central controller that accepts parsed A2UI messages and
/// orchestrates updates to the surface group model.
pub struct MessageProcessor {
    pub surfaces: SurfaceGroupModel,
}

impl View for MessageProcessor {
    type V = Map<Seq<char>, SurfaceView>;

    open spec fn view(&self) -> Map<Seq<char>, SurfaceView> {
        self.surfaces@
    }
}

impl MessageProcessor {
    /// Create a new processor with an empty surface group.
    pub fn new() -> (r: Self)
        ensures
            r@ == Map::<Seq<char>, SurfaceView>::empty(),
    {
        MessageProcessor { surfaces: SurfaceGroupModel::new() }
    }

    /// Create a processor wrapping an existing surface group.
    pub fn with_surfaces(surfaces: SurfaceGroupModel) -> (r: Self)
        ensures
            r@ == surfaces@,
    {
        MessageProcessor { surfaces }
    }

    /// Process a single A2UI message.
    pub fn process(&mut self, msg: &A2uiMessage)
        ensures
            final(self)@ == process_spec(old(self)@, msg.deep_view()),
    {
        match msg.payload() {
            Some(MessagePayload::CreateSurface(cs)) => {
                let send = match cs.send_data_model {
                    Some(b) => b,
                    None => false,
                };
                let _ = self.surfaces.create_surface(
                    cs.surface_id.as_str(),
                    cs.catalog_id.as_str(),
                    clone_option(&cs.theme),
                    send,
                );
            },
            Some(MessagePayload::UpdateComponents(uc)) => {
                let _ = self.surfaces.upsert_components(
                    uc.surface_id.as_str(),
                    uc.components.as_slice(),
                );
            },
            Some(MessagePayload::UpdateDataModel(udm)) => {
                let path: Option<&str> = match &udm.path {
                    Some(p) => Some(p.as_str()),
                    None => None,
                };
                let _ = self.surfaces.update_data(
                    udm.surface_id.as_str(),
                    path,
                    clone_option(&udm.value),
                );
            },
            Some(MessagePayload::DeleteSurface(ds)) => {
                let _ = self.surfaces.delete_surface(ds.surface_id.as_str());
            },
            None => {},
        }
    }

    /// Process a list of messages in order (e.g., from an example file).
    pub fn process_all(&mut self, messages: &[A2uiMessage])
        ensures
            final(self)@ == process_all_spec(old(self)@, messages.deep_view()),
    {
        let mut i: usize = 0;
        proof {
            assert(messages.deep_view().take(0) =~= Seq::<MessageView>::empty());
        }
        while i < messages.len()
            invariant
                i <= messages@.len(),
                messages.deep_view().len() == messages@.len(),
                self@ == process_all_spec(old(self)@, messages.deep_view().take(i as int)),
            decreases messages.len() - i,
        {
            let msg = &messages[i];
            proof {
                let t = messages.deep_view().take(i + 1);
                assert(t.drop_last() =~= messages.deep_view().take(i as int));
                assert(t.last() == msg.deep_view());
            }
            self.process(msg);
            i = i + 1;
        }
        proof {
            assert(messages.deep_view().take(i as int) =~= messages.deep_view());
        }
    }
}

impl Default for MessageProcessor {
    fn default() -> (r: Self)
        ensures
            r@ == Map::<Seq<char>, SurfaceView>::empty(),
    {
        Self::new()
    }
}

// ---------------------------------------------------------------------------
// Laws
// ---------------------------------------------------------------------------

/// After `createSurface`, the surface is there, fresh, with the message's
/// catalog, theme and flag.
pub proof fn law_create_then_get(g: Map<Seq<char>, SurfaceView>, m: MessageView)
    requires
        payload_of(m) is Some,
        payload_of(m)->0 is CreateSurface,
    ensures
        ({
            let cs = payload_of(m)->0->CreateSurface_0;
            &&& process_spec(g, m).contains_key(cs.surface_id)
            &&& process_spec(g, m)[cs.surface_id].data == crate::json::empty_object()
            &&& process_spec(g, m)[cs.surface_id].components == Map::<
                Seq<char>,
                crate::component::ComponentView,
            >::empty()
            &&& process_spec(g, m)[cs.surface_id].catalog_id == cs.catalog_id
            &&& process_spec(g, m)[cs.surface_id].theme == cs.theme
        }),
{
}

/// After `deleteSurface`, the surface is gone and the others are unchanged.
pub proof fn law_delete_then_absent(g: Map<Seq<char>, SurfaceView>, m: MessageView, other: Seq<char>)
    requires
        payload_of(m) is Some,
        payload_of(m)->0 is DeleteSurface,
        other != payload_of(m)->0->DeleteSurface_0.surface_id,
    ensures
        !process_spec(g, m).contains_key(payload_of(m)->0->DeleteSurface_0.surface_id),
        process_spec(g, m).contains_key(other) == g.contains_key(other),
        g.contains_key(other) ==> process_spec(g, m)[other] == g[other],
{
}

/// A message about a surface that does not exist (other than a create)
/// changes nothing.
pub proof fn law_unknown_surface_unchanged(g: Map<Seq<char>, SurfaceView>, m: MessageView)
    requires
        payload_of(m) is Some,
        match payload_of(m)->0 {
            PayloadView::UpdateComponents(uc) => !g.contains_key(uc.surface_id),
            PayloadView::UpdateDataModel(u) => !g.contains_key(u.surface_id),
            PayloadView::DeleteSurface(d) => !g.contains_key(d.surface_id),
            PayloadView::CreateSurface(_) => false,
        },
    ensures
        process_spec(g, m) =~= g,
{
}

/// Read after write through the protocol: after an `updateDataModel` that
/// sets a value at a path of an existing surface, that path of the
/// surface's data resolves to the value.
pub proof fn law_update_data_then_resolve(g: Map<Seq<char>, SurfaceView>, m: MessageView)
    requires
        payload_of(m) is Some,
        payload_of(m)->0 is UpdateDataModel,
        g.contains_key(payload_of(m)->0->UpdateDataModel_0.surface_id),
        payload_of(m)->0->UpdateDataModel_0.value is Some,
    ensures
        ({
            let u = payload_of(m)->0->UpdateDataModel_0;
            let p = match u.path {
                Some(p) => p,
                None => seq!['/'],
            };
            resolve_path(process_spec(g, m)[u.surface_id].data, p) == Some(u.value->0)
        }),
{
    let u = payload_of(m)->0->UpdateDataModel_0;
    let p = match u.path {
        Some(p) => p,
        None => seq!['/'],
    };
    crate::pointer::law_resolve_after_set(g[u.surface_id].data, p, u.value->0);
}

/// An `updateDataModel` without a value at a path other than the root
/// removes only what lies there: every path of the surface's data that
/// parts from it (neither at nor under it) finds what it found before,
/// unless a later element of the same array shifted down.
pub proof fn law_update_data_remove_keeps_others(
    g: Map<Seq<char>, SurfaceView>,
    m: MessageView,
    q: Seq<char>,
    j: int,
)
    requires
        payload_of(m) is Some,
        payload_of(m)->0 is UpdateDataModel,
        ({
            let u = payload_of(m)->0->UpdateDataModel_0;
            &&& g.contains_key(u.surface_id)
            &&& u.value is None
            &&& u.path is Some
            &&& !is_root_path(u.path->0)
            &&& !is_root_path(q)
            &&& part_at(path_tokens(u.path->0), path_tokens(q), j)
            &&& resolve_path(g[u.surface_id].data, q) is Some
            &&& (j < path_tokens(u.path->0).len() - 1 || pointer_get(
                g[u.surface_id].data,
                path_tokens(q).take(j),
            ) matches Some(JsonView::Object(_)))
        }),
    ensures
        ({
            let u = payload_of(m)->0->UpdateDataModel_0;
            resolve_path(process_spec(g, m)[u.surface_id].data, q) == resolve_path(
                g[u.surface_id].data,
                q,
            )
        }),
{
    let u = payload_of(m)->0->UpdateDataModel_0;
    law_remove_elsewhere(g[u.surface_id].data, u.path->0, q, j);
}

/// An `updateDataModel` without a value removes what lies at its path: when
/// the path's parent in the (well-formed) data is an object, the path finds
/// nothing afterwards, and the other surfaces are unchanged.
pub proof fn law_update_data_remove_then_absent(g: Map<Seq<char>, SurfaceView>, m: MessageView, other: Seq<char>)
    requires
        payload_of(m) is Some,
        payload_of(m)->0 is UpdateDataModel,
        ({
            let u = payload_of(m)->0->UpdateDataModel_0;
            &&& g.contains_key(u.surface_id)
            &&& u.value is None
            &&& u.path is Some
            &&& !is_root_path(u.path->0)
            &&& json_wf(g[u.surface_id].data)
            &&& pointer_get(g[u.surface_id].data, path_tokens(u.path->0).drop_last()) matches Some(
                JsonView::Object(_),
            )
        }),
        other != payload_of(m)->0->UpdateDataModel_0.surface_id,
    ensures
        ({
            let u = payload_of(m)->0->UpdateDataModel_0;
            &&& resolve_path(process_spec(g, m)[u.surface_id].data, u.path->0) is None
            &&& process_spec(g, m).contains_key(other) == g.contains_key(other)
            &&& g.contains_key(other) ==> process_spec(g, m)[other] == g[other]
        }),
{
    let u = payload_of(m)->0->UpdateDataModel_0;
    law_remove_member_then_resolve(g[u.surface_id].data, u.path->0);
}

/// After an `updateComponents` for an existing surface, each component the
/// message describes (the last one, where an id comes twice) is in that
/// surface under its id; the surface's data and the other surfaces are as
/// they were.
pub proof fn law_update_components_then_get(
    g: Map<Seq<char>, SurfaceView>,
    m: MessageView,
    i: int,
    other: Seq<char>,
)
    requires
        payload_of(m) is Some,
        payload_of(m)->0 is UpdateComponents,
        g.contains_key(payload_of(m)->0->UpdateComponents_0.surface_id),
        ({
            let raws = payload_of(m)->0->UpdateComponents_0.components;
            &&& 0 <= i < raws.len()
            &&& component_of(raws[i]) is Some
            &&& names_no_component(raws, i + 1, component_of(raws[i])->0.id)
        }),
        other != payload_of(m)->0->UpdateComponents_0.surface_id,
    ensures
        ({
            let uc = payload_of(m)->0->UpdateComponents_0;
            let c = component_of(uc.components[i])->0;
            let s = process_spec(g, m)[uc.surface_id];
            &&& process_spec(g, m).contains_key(uc.surface_id)
            &&& s.components.contains_key(c.id)
            &&& s.components[c.id] == c
            &&& s.data == g[uc.surface_id].data
            &&& process_spec(g, m).contains_key(other) == g.contains_key(other)
            &&& g.contains_key(other) ==> process_spec(g, m)[other] == g[other]
        }),
{
    let uc = payload_of(m)->0->UpdateComponents_0;
    law_upsert_then_get(g[uc.surface_id].components, uc.components, i);
}

/// Processing a list of messages is processing them one after another.
pub proof fn law_process_all_step(g: Map<Seq<char>, SurfaceView>, ms: Seq<MessageView>, m: MessageView)
    ensures
        process_all_spec(g, ms.push(m)) == process_spec(process_all_spec(g, ms), m),
{
    assert(ms.push(m).drop_last() =~= ms);
}

/// Processing the messages of `xs` then those of `ys` is processing
/// `xs + ys`; processing no messages changes nothing.
pub proof fn law_process_all_concat(
    g: Map<Seq<char>, SurfaceView>,
    xs: Seq<MessageView>,
    ys: Seq<MessageView>,
)
    ensures
        process_all_spec(g, xs + ys) == process_all_spec(process_all_spec(g, xs), ys),
        process_all_spec(g, Seq::<MessageView>::empty()) == g,
    decreases ys.len(),
{
    if ys.len() == 0 {
        assert(xs + ys =~= xs);
    } else {
        law_process_all_concat(g, xs, ys.drop_last());
        assert((xs + ys).drop_last() =~= xs + ys.drop_last());
        assert((xs + ys).last() == ys.last());
    }
}

/// A message with no payload changes nothing.
pub proof fn law_empty_message(g: Map<Seq<char>, SurfaceView>, m: MessageView)
    requires
        payload_of(m) is None,
    ensures
        process_spec(g, m) == g,
{
}

} // verus!
