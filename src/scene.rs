//! The renderer of mesh components.
use vstd::prelude::*;

verus! {

/// The renderer of mesh components. It keeps no state of its own: what it
/// draws comes from a join over the transform and mesh kinds of a world.
#[derive(Debug, Clone, Copy, PartialEq, Eq, Structural)]
pub struct MeshRenderer {}

impl MeshRenderer {
    /// A renderer; it holds no state of its own.
    pub fn new() -> (r: MeshRenderer)
        ensures
            r == (MeshRenderer {}),
    {
        MeshRenderer {}
    }
}

} // verus!
