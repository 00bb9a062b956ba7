//! Render-facing per-entity data that the simulation writes.
//!
//! Texture handles, render boxes and the draw pass itself belong to the
//! renderer outside this crate; the simulation only records which way an
//! entity faces, so that is all the component holds here.

use vstd::prelude::*;

verus! {

/// Drawing state of an entity that the simulation controls: whether the
/// sprite is mirrored horizontally.
#[derive(Debug, Clone, Copy, PartialEq, Eq, Structural)]
pub struct GraphicsComponent {
    /// Whether the entity's sprite is drawn flipped (facing left).
    pub flipped: bool,
}

impl View for GraphicsComponent {
    type V = bool;

    open spec fn view(&self) -> bool {
        self.flipped
    }
}

impl GraphicsComponent {
    /// Create a new graphics component.
    pub fn new(flipped: bool) -> (r: GraphicsComponent)
        ensures
            r@ == flipped,
    {
        GraphicsComponent { flipped }
    }
}

} // verus!
