//! Axis-aligned bounding boxes in fixed-point world coordinates.
//!
//! Coordinates use the same fixed-point scale as the raycaster: 256
//! subunits per world unit, so one block cell spans exactly 256 subunits
//! per axis. Axes are numbered 0 (x), 1 (y), 2 (z).

use vstd::prelude::*;

verus! {

/// An axis-aligned box `[min, max)` per axis, in fixed-point subunits.
#[derive(Clone, Copy, PartialEq, Eq, Structural, Debug)]
pub struct AABB {
    pub min_x: i64,
    pub min_y: i64,
    pub min_z: i64,
    pub max_x: i64,
    pub max_y: i64,
    pub max_z: i64,
}

/// The lower bound of `a` on one axis.
pub open spec fn aabb_min(a: AABB, axis: int) -> int {
    if axis == 0 {
        a.min_x as int
    } else if axis == 1 {
        a.min_y as int
    } else {
        a.min_z as int
    }
}

/// The upper bound of `a` on one axis.
pub open spec fn aabb_max(a: AABB, axis: int) -> int {
    if axis == 0 {
        a.max_x as int
    } else if axis == 1 {
        a.max_y as int
    } else {
        a.max_z as int
    }
}

/// `a` moved by `t` along one axis.
pub open spec fn translated(a: AABB, axis: int, t: int) -> AABB {
    if axis == 0 {
        AABB { min_x: (a.min_x + t) as i64, max_x: (a.max_x + t) as i64, ..a }
    } else if axis == 1 {
        AABB { min_y: (a.min_y + t) as i64, max_y: (a.max_y + t) as i64, ..a }
    } else {
        AABB { min_z: (a.min_z + t) as i64, max_z: (a.max_z + t) as i64, ..a }
    }
}

/// Whether `a`'s extent on axis `ax` overlaps (strictly) the block-cell
/// interval `[256 c, 256 (c + 1))`.
pub open spec fn axis_overlap(a: AABB, ax: int, c: int) -> bool {
    256 * c < aabb_max(a, ax) && aabb_min(a, ax) < 256 * c + 256
}

impl AABB {
    /// A box of positive extent whose coordinates leave headroom for
    /// collision sweeps.
    pub open spec fn wf(self) -> bool {
        &&& self.min_x < self.max_x
        &&& self.min_y < self.max_y
        &&& self.min_z < self.max_z
        &&& -0x20_0000_0000 <= self.min_x && self.max_x <= 0x20_0000_0000
        &&& -0x20_0000_0000 <= self.min_y && self.max_y <= 0x20_0000_0000
        &&& -0x20_0000_0000 <= self.min_z && self.max_z <= 0x20_0000_0000
    }

    /// Builds the box spanning `mins` to `maxs`.
    pub fn new(mins: (i64, i64, i64), maxs: (i64, i64, i64)) -> (r: AABB)
        ensures
            r == (AABB {
                min_x: mins.0,
                min_y: mins.1,
                min_z: mins.2,
                max_x: maxs.0,
                max_y: maxs.1,
                max_z: maxs.2,
            }),
    {
        AABB {
            min_x: mins.0,
            min_y: mins.1,
            min_z: mins.2,
            max_x: maxs.0,
            max_y: maxs.1,
            max_z: maxs.2,
        }
    }

    /// Moves the box by `t` along `axis`.
    pub fn translate(&self, axis: usize, t: i64) -> (r: AABB)
        requires
            axis < 3,
            -0x30_0000_0000 <= aabb_min(*self, axis as int) + t <= 0x30_0000_0000,
            -0x30_0000_0000 <= aabb_max(*self, axis as int) + t <= 0x30_0000_0000,
        ensures
            r == translated(*self, axis as int, t as int),
    {
        if axis == 0 {
            AABB { min_x: self.min_x + t, max_x: self.max_x + t, ..*self }
        } else if axis == 1 {
            AABB { min_y: self.min_y + t, max_y: self.max_y + t, ..*self }
        } else {
            AABB { min_z: self.min_z + t, max_z: self.max_z + t, ..*self }
        }
    }
}

} // verus!
