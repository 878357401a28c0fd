//! # A2UI
//!
//! The data layer of a renderer for the A2UI v0.9 protocol: JSON values and
//! JSON Pointers, the data model of a surface, components, surfaces and the
//! message processor, catalogs and their functions, and what the catalog
//! components decide before they are drawn.
//!
//! Every function states its behaviour in its contract, over the views of
//! the values it handles.

use vstd::prelude::*;

pub mod text;
pub mod json;
pub mod pointer;
pub mod data_model;
pub mod component;
pub mod context;
pub mod protocol;
pub mod keyed;
pub mod surface;
pub mod processor;
pub mod catalog;
pub mod functions;
pub mod render;
pub mod incoming;

pub use catalog::Catalog;
pub use component::ComponentModel;
pub use data_model::DataModel;
pub use json::{JsonObject, JsonValue};
pub use processor::MessageProcessor;
pub use protocol::{A2uiMessage, ClientAction, ClientMessage};
pub use surface::{SurfaceGroupModel, SurfaceModel};

verus! {
} // verus!
