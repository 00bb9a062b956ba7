//! The animation system.
//!
//! Frame selection and texture switching read the tag sets the simulation
//! writes and belong to the renderer outside this crate; the system type is
//! kept here as the simulation-side handle that the frame loop constructs.

use vstd::prelude::*;

verus! {

/// System to play animations of entities; its per-frame pass lives with the
/// renderer, which consumes the tag sets this crate maintains.
pub struct AnimationSystem {}

impl AnimationSystem {
    /// Create a new animation system.
    pub fn new() -> AnimationSystem {
        AnimationSystem {  }
    }
}

} // verus!
