//! Per-face texture references for block variants.
//!
//! A texture atlas is a square image of texel cells; a face samples one
//! axis-aligned rectangle of it. Rectangles are kept in integer texel
//! coordinates; scaling to normalized coordinates happens only at the
//! graphics boundary, outside this crate.

use vstd::prelude::*;
use crate::block::BlockID;

verus! {

/// One axis-aligned rectangle of the texture atlas, in texels.
#[derive(Clone, Copy, PartialEq, Eq, Structural, Debug)]
pub struct UVRect {
    pub u_min: u16,
    pub v_min: u16,
    pub u_max: u16,
    pub v_max: u16,
}

/// How a block variant maps its six faces onto atlas rectangles: one
/// rectangle for every face, one for the sides plus separate top and bottom,
/// or six independent rectangles.
#[derive(Clone, Copy, PartialEq, Eq, Debug)]
pub enum BlockFaces<T> {
    All(T),
    Sides { sides: T, top: T, bottom: T },
    Each { top: T, bottom: T, front: T, back: T, left: T, right: T },
}

/// Rectangles for all six faces, in the fixed face order
/// (right, left, top, bottom, front, back).
pub type UVFaces = (UVRect, UVRect, UVRect, UVRect, UVRect, UVRect);

/// The six per-face rectangles denoted by a `BlockFaces` value, in the order
/// (right, left, top, bottom, front, back).
pub open spec fn uv_every_side(faces: BlockFaces<UVRect>) -> UVFaces {
    match faces {
        BlockFaces::All(r) => (r, r, r, r, r, r),
        BlockFaces::Sides { sides, top, bottom } => (sides, sides, top, bottom, sides, sides),
        BlockFaces::Each { top, bottom, front, back, left, right } => (
            right,
            left,
            top,
            bottom,
            front,
            back,
        ),
    }
}

/// Expands a `BlockFaces` value to one rectangle per face.
pub fn get_uv_every_side(faces: BlockFaces<UVRect>) -> (r: UVFaces)
    ensures
        r == uv_every_side(faces),
{
    match faces {
        BlockFaces::All(r) => (r, r, r, r, r, r),
        BlockFaces::Sides { sides, top, bottom } => (sides, sides, top, bottom, sides, sides),
        BlockFaces::Each { top, bottom, front, back, left, right } => (
            right,
            left,
            top,
            bottom,
            front,
            back,
        ),
    }
}

/// The face rectangles of every renderable block variant. `Air` emits no
/// geometry, so its entry is a placeholder that no mesh ever samples.
#[derive(Clone, Copy, PartialEq, Eq, Debug)]
pub struct UvAtlas {
    pub dirt: BlockFaces<UVRect>,
    pub grass_block: BlockFaces<UVRect>,
    pub cobblestone: BlockFaces<UVRect>,
    pub obsidian: BlockFaces<UVRect>,
    pub oak_log: BlockFaces<UVRect>,
    pub oak_leaves: BlockFaces<UVRect>,
    pub debug: BlockFaces<UVRect>,
    pub debug2: BlockFaces<UVRect>,
}

/// The atlas entry of a block variant; `Air` gets an all-zero placeholder.
pub open spec fn atlas_faces(atlas: UvAtlas, b: BlockID) -> BlockFaces<UVRect> {
    match b {
        BlockID::Air => BlockFaces::All(UVRect { u_min: 0, v_min: 0, u_max: 0, v_max: 0 }),
        BlockID::Dirt => atlas.dirt,
        BlockID::GrassBlock => atlas.grass_block,
        BlockID::Cobblestone => atlas.cobblestone,
        BlockID::Obsidian => atlas.obsidian,
        BlockID::OakLog => atlas.oak_log,
        BlockID::OakLeaves => atlas.oak_leaves,
        BlockID::Debug => atlas.debug,
        BlockID::Debug2 => atlas.debug2,
    }
}

impl UvAtlas {
    /// Looks up the face rectangles of a block variant.
    pub fn faces_of(&self, b: BlockID) -> (r: BlockFaces<UVRect>)
        ensures
            r == atlas_faces(*self, b),
    {
        match b {
            BlockID::Air => BlockFaces::All(UVRect { u_min: 0, v_min: 0, u_max: 0, v_max: 0 }),
            BlockID::Dirt => self.dirt,
            BlockID::GrassBlock => self.grass_block,
            BlockID::Cobblestone => self.cobblestone,
            BlockID::Obsidian => self.obsidian,
            BlockID::OakLog => self.oak_log,
            BlockID::OakLeaves => self.oak_leaves,
            BlockID::Debug => self.debug,
            BlockID::Debug2 => self.debug2,
        }
    }
}

} // verus!
