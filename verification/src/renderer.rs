//! The core/display seam. Display adapters implement [`Renderer`]; the core
//! never depends on any display library.
use vstd::prelude::*;
use crate::processor::Document;

verus! {

/// Display-layer contract. The adapter decides how to paint the tree.
///
/// Implementations are free to diff against their previous input to re-render
/// only the changed blocks.
pub trait Renderer {
    /// Render (or update) the given document.
    fn render(&mut self, doc: &Document);
}

/// A renderer that produces no output — useful as a benchmark baseline.
pub struct NullRenderer;

impl Renderer for NullRenderer {
    fn render(&mut self, _doc: &Document) {
    }
}

} // verus!
