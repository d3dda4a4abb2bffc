//! Block variants and their static properties.

use vstd::prelude::*;

verus! {

/// The closed set of block variants. `Air` is the designated empty variant:
/// it is transparent and never produces geometry.
#[derive(Clone, Copy, PartialEq, Eq, Structural, Debug, Hash)]
pub enum BlockID {
    Air,
    Dirt,
    GrassBlock,
    Cobblestone,
    Obsidian,
    OakLog,
    OakLeaves,
    Debug,
    Debug2,
}

/// Whether a block variant lets visibility through. A transparent block does
/// not occlude the faces of its neighbours; only `Air` is transparent.
pub open spec fn is_transparent_spec(b: BlockID) -> bool {
    b == BlockID::Air
}

impl BlockID {
    /// Transparency of this variant, as used for face culling.
    pub fn is_transparent(self) -> (r: bool)
        ensures
            r == is_transparent_spec(self),
    {
        match self {
            BlockID::Air => true,
            _ => false,
        }
    }
}

} // verus!
