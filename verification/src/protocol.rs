//! A2UI v0.9 protocol message types.
//!
//! Rust structs mirroring the JSON schemas of the A2UI specification. The
//! JSON encoding itself (field names in camelCase, absent options left out)
//! is the application's concern; here are the messages as values.

use vstd::prelude::*;

use crate::json::{items_view, JsonValue, JsonView};

verus! {

// ---------------------------------------------------------------------------
// Server to client messages
// ---------------------------------------------------------------------------

/// A single A2UI server-to-client message envelope.
///
/// The JSON wire format uses a flat object with `"version"` plus exactly one
/// of the four payload keys.
#[derive(Debug, Clone)]
pub struct A2uiMessage {
    pub version: String,
    pub create_surface: Option<CreateSurface>,
    pub update_components: Option<UpdateComponents>,
    pub update_data_model: Option<UpdateDataModel>,
    pub delete_surface: Option<DeleteSurface>,
}

/// Convenience enum for pattern-matching the message payload.
#[derive(Debug)]
pub enum MessagePayload<'a> {
    CreateSurface(&'a CreateSurface),
    UpdateComponents(&'a UpdateComponents),
    UpdateDataModel(&'a UpdateDataModel),
    DeleteSurface(&'a DeleteSurface),
}

/// `createSurface`: signals the client to create a new surface.
#[derive(Debug, Clone)]
pub struct CreateSurface {
    pub surface_id: String,
    pub catalog_id: String,
    pub theme: Option<JsonValue>,
    pub send_data_model: Option<bool>,
}

/// `updateComponents`: adds or replaces components in a surface.
#[derive(Debug, Clone)]
pub struct UpdateComponents {
    pub surface_id: String,
    pub components: Vec<JsonValue>,
}

/// `updateDataModel`: patches the data model for a surface.
#[derive(Debug, Clone)]
pub struct UpdateDataModel {
    pub surface_id: String,
    pub path: Option<String>,
    pub value: Option<JsonValue>,
}

/// `deleteSurface`: removes a surface.
#[derive(Debug, Clone)]
pub struct DeleteSurface {
    pub surface_id: String,
}

// ---------------------------------------------------------------------------
// Client to server messages
// ---------------------------------------------------------------------------

/// A client-to-server action event.
#[derive(Debug, Clone)]
pub struct ClientAction {
    pub name: String,
    pub surface_id: String,
    pub source_component_id: String,
    pub timestamp: String,
    pub context: JsonValue,
}

/// A client-to-server error report.
#[derive(Debug, Clone)]
pub struct ClientError {
    pub code: String,
    pub surface_id: String,
    pub message: String,
    pub path: Option<String>,
}

/// Client-to-server message envelope.
#[derive(Debug, Clone)]
pub struct ClientMessage {
    pub version: String,
    pub action: Option<ClientAction>,
    pub error: Option<ClientError>,
}

/// Wrapper for example files that contain a list of messages.
#[derive(Debug, Clone)]
pub struct ExampleFile {
    pub name: String,
    pub description: String,
    pub messages: Vec<A2uiMessage>,
}

// ---------------------------------------------------------------------------
// Views
// ---------------------------------------------------------------------------

pub struct CreateSurfaceView {
    pub surface_id: Seq<char>,
    pub catalog_id: Seq<char>,
    pub theme: Option<JsonView>,
    pub send_data_model: Option<bool>,
}

pub struct UpdateComponentsView {
    pub surface_id: Seq<char>,
    pub components: Seq<JsonView>,
}

pub struct UpdateDataModelView {
    pub surface_id: Seq<char>,
    pub path: Option<Seq<char>>,
    pub value: Option<JsonView>,
}

pub struct DeleteSurfaceView {
    pub surface_id: Seq<char>,
}

pub struct MessageView {
    pub version: Seq<char>,
    pub create_surface: Option<CreateSurfaceView>,
    pub update_components: Option<UpdateComponentsView>,
    pub update_data_model: Option<UpdateDataModelView>,
    pub delete_surface: Option<DeleteSurfaceView>,
}

/// The model of a message payload.
pub enum PayloadView {
    CreateSurface(CreateSurfaceView),
    UpdateComponents(UpdateComponentsView),
    UpdateDataModel(UpdateDataModelView),
    DeleteSurface(DeleteSurfaceView),
}

pub struct ClientActionView {
    pub name: Seq<char>,
    pub surface_id: Seq<char>,
    pub source_component_id: Seq<char>,
    pub timestamp: Seq<char>,
    pub context: JsonView,
}

impl DeepView for CreateSurface {
    type V = CreateSurfaceView;

    open spec fn deep_view(&self) -> CreateSurfaceView {
        CreateSurfaceView {
            surface_id: self.surface_id@,
            catalog_id: self.catalog_id@,
            theme: self.theme.deep_view(),
            send_data_model: self.send_data_model,
        }
    }
}

impl DeepView for UpdateComponents {
    type V = UpdateComponentsView;

    open spec fn deep_view(&self) -> UpdateComponentsView {
        UpdateComponentsView {
            surface_id: self.surface_id@,
            components: items_view(self.components@),
        }
    }
}

impl DeepView for UpdateDataModel {
    type V = UpdateDataModelView;

    open spec fn deep_view(&self) -> UpdateDataModelView {
        UpdateDataModelView {
            surface_id: self.surface_id@,
            path: self.path.deep_view(),
            value: self.value.deep_view(),
        }
    }
}

impl DeepView for DeleteSurface {
    type V = DeleteSurfaceView;

    open spec fn deep_view(&self) -> DeleteSurfaceView {
        DeleteSurfaceView { surface_id: self.surface_id@ }
    }
}

impl DeepView for A2uiMessage {
    type V = MessageView;

    open spec fn deep_view(&self) -> MessageView {
        MessageView {
            version: self.version@,
            create_surface: self.create_surface.deep_view(),
            update_components: self.update_components.deep_view(),
            update_data_model: self.update_data_model.deep_view(),
            delete_surface: self.delete_surface.deep_view(),
        }
    }
}

impl<'a> DeepView for MessagePayload<'a> {
    type V = PayloadView;

    open spec fn deep_view(&self) -> PayloadView {
        match self {
            MessagePayload::CreateSurface(p) => PayloadView::CreateSurface(p.deep_view()),
            MessagePayload::UpdateComponents(p) => PayloadView::UpdateComponents(p.deep_view()),
            MessagePayload::UpdateDataModel(p) => PayloadView::UpdateDataModel(p.deep_view()),
            MessagePayload::DeleteSurface(p) => PayloadView::DeleteSurface(p.deep_view()),
        }
    }
}

impl DeepView for ClientAction {
    type V = ClientActionView;

    open spec fn deep_view(&self) -> ClientActionView {
        ClientActionView {
            name: self.name@,
            surface_id: self.surface_id@,
            source_component_id: self.source_component_id@,
            timestamp: self.timestamp@,
            context: self.context@,
        }
    }
}

/// The payload of a message: the first present of `createSurface`,
/// `updateComponents`, `updateDataModel` and `deleteSurface`, in that order.
pub open spec fn payload_of(m: MessageView) -> Option<PayloadView> {
    if m.create_surface is Some {
        Some(PayloadView::CreateSurface(m.create_surface->0))
    } else if m.update_components is Some {
        Some(PayloadView::UpdateComponents(m.update_components->0))
    } else if m.update_data_model is Some {
        Some(PayloadView::UpdateDataModel(m.update_data_model->0))
    } else if m.delete_surface is Some {
        Some(PayloadView::DeleteSurface(m.delete_surface->0))
    } else {
        None
    }
}

impl A2uiMessage {
    /// Returns which payload variant this message contains.
    pub fn payload(&self) -> (r: Option<MessagePayload<'_>>)
        ensures
            r.deep_view() == payload_of(self.deep_view()),
    {
        if let Some(p) = &self.create_surface {
            Some(MessagePayload::CreateSurface(p))
        } else if let Some(p) = &self.update_components {
            Some(MessagePayload::UpdateComponents(p))
        } else if let Some(p) = &self.update_data_model {
            Some(MessagePayload::UpdateDataModel(p))
        } else if let Some(p) = &self.delete_surface {
            Some(MessagePayload::DeleteSurface(p))
        } else {
            None
        }
    }
}

/// The protocol version this library speaks.
pub open spec fn protocol_version() -> Seq<char> {
    "v0.9"@
}

impl ClientMessage {
    /// An action message.
    pub fn action(action: ClientAction) -> (r: Self)
        ensures
            r.version@ == protocol_version(),
            r.action == Some(action),
            r.error is None,
    {
        ClientMessage { version: "v0.9".to_owned(), action: Some(action), error: None }
    }

    /// An error message.
    pub fn error(error: ClientError) -> (r: Self)
        ensures
            r.version@ == protocol_version(),
            r.action is None,
            r.error == Some(error),
    {
        ClientMessage { version: "v0.9".to_owned(), action: None, error: Some(error) }
    }
}

} // verus!
