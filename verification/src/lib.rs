//! BoxDoc: the document model and editing logic of a small object-canvas
//! document editor, with its undo/redo history, the `.boxdoc` project format
//! and the OpenDocument text import/export.
//!
//! Geometry (positions, sizes, angles in points) is carried as an opaque
//! type parameter `G` that the library stores and copies but never inspects.
use vstd::prelude::*;

pub mod codec;
pub mod editor;
pub mod history;
pub mod model;
pub mod odt;
pub mod odt_frames;
pub mod odt_roundtrip;
pub mod project;
pub mod selection;
pub mod settings;
pub mod store;
pub mod text;

verus! {

} // verus!
