//! The page renderer handle.
use vstd::prelude::*;

verus! {

/// Renders element trees to HTML.
pub struct Renderer;

impl Renderer {
    pub fn new() -> Renderer {
        Renderer
    }
}

} // verus!
