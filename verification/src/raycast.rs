//! Ray marching through world-block space.
//!
//! Positions are fixed-point with 256 subunits per world unit, so the march
//! is exact integer arithmetic. The ray starts at an origin and advances by
//! a constant step vector (at most one world unit per axis per step, so a
//! one-block obstacle cannot be jumped over) for a bounded number of steps,
//! sampling the voxel grid at each position. The first sample inside a
//! solid (non-`Air`, loaded) block ends the march; the face normal of entry
//! is derived from which axis boundaries were crossed by the step
//! immediately preceding the hit.

use vstd::prelude::*;
use crate::block::BlockID;
use crate::chunk_manager::{ChunkManager, block_at, key_view};

verus! {

/// Fixed-point subunits per world unit.
pub const FP_ONE: i64 = 256;

/// The sign of `v`: -1, 0 or 1.
pub open spec fn sgn(v: int) -> int {
    if v > 0 {
        1
    } else if v < 0 {
        -1
    } else {
        0
    }
}

/// The block coordinate a fixed-point coordinate falls in.
pub open spec fn fp_floor(v: int) -> int {
    v / 256
}

/// The sampled position after `k` steps.
pub open spec fn sample(o: (int, int, int), d: (int, int, int), k: int) -> (int, int, int) {
    (o.0 + k * d.0, o.1 + k * d.1, o.2 + k * d.2)
}

/// The block cell the `k`-th sample falls in.
pub open spec fn sample_cell(o: (int, int, int), d: (int, int, int), k: int) -> (int, int, int) {
    let p = sample(o, d, k);
    (fp_floor(p.0), fp_floor(p.1), fp_floor(p.2))
}

/// Whether a loaded, non-`Air` block occupies the cell at `(x, y, z)`.
pub open spec fn solid_at(m: Map<(int, int, int), crate::chunk::ChunkView>, x: int, y: int, z: int) -> bool {
    match block_at(m, x, y, z) {
        Some(b) => b != BlockID::Air,
        None => false,
    }
}

/// Whether the `k`-th sample lies inside a solid block.
pub open spec fn hit_at(
    m: Map<(int, int, int), crate::chunk::ChunkView>,
    o: (int, int, int),
    d: (int, int, int),
    k: int,
) -> bool {
    let c = sample_cell(o, d, k);
    solid_at(m, c.0, c.1, c.2)
}

/// The face normal of entry at step `k`: the per-axis sign of the cell
/// change over the preceding step. A ray that starts inside a solid block
/// has crossed no boundary and reports a zero normal.
pub open spec fn entry_normal(o: (int, int, int), d: (int, int, int), k: int) -> (int, int, int) {
    if k == 0 {
        (0int, 0int, 0int)
    } else {
        let p = sample_cell(o, d, k - 1);
        let c = sample_cell(o, d, k);
        (sgn(p.0 - c.0), sgn(p.1 - c.1), sgn(p.2 - c.2))
    }
}

/// The result of marching from sample `k` on: the first hit at or after
/// `k` and at most `max`, with its cell and entry normal, or `None` when
/// every remaining sample is in the clear.
pub open spec fn raycast_from(
    m: Map<(int, int, int), crate::chunk::ChunkView>,
    o: (int, int, int),
    d: (int, int, int),
    k: int,
    max: int,
) -> Option<((int, int, int), (int, int, int))>
    decreases max - k + 1,
{
    if k > max {
        None
    } else if hit_at(m, o, d, k) {
        Some((sample_cell(o, d, k), entry_normal(o, d, k)))
    } else {
        raycast_from(m, o, d, k + 1, max)
    }
}

/// The full march: the first solid sample within `max` steps, if any.
pub open spec fn raycast_spec(
    m: Map<(int, int, int), crate::chunk::ChunkView>,
    o: (int, int, int),
    d: (int, int, int),
    max: int,
) -> Option<((int, int, int), (int, int, int))> {
    raycast_from(m, o, d, 0, max)
}

/// The sign of `v`, executably.
fn sgn_i64(v: i64) -> (r: i32)
    ensures
        r == sgn(v as int),
{
    if v > 0 {
        1
    } else if v < 0 {
        -1
    } else {
        0
    }
}

/// The block coordinate a fixed-point coordinate falls in, executably.
pub fn fp_floor_i64(v: i64) -> (r: i32)
    requires
        -0x21_0000_0000 <= v <= 0x21_0000_0000,
    ensures
        r == fp_floor(v as int),
{
    let q = match v.checked_div_euclid(256) {
        Some(q) => q,
        None => 0,  // unreachable: the quotient always fits
    };
    q as i32
}

/// Marches from `origin` along constant fixed-point `step` for at most
/// `max_steps` steps and returns the first solid block cell found with its
/// entry face normal, or `None` when nothing solid lies on the sampled
/// path. The step must not exceed one world unit per axis.
pub fn raycast(
    world: &ChunkManager,
    origin: (i64, i64, i64),
    step: (i64, i64, i64),
    max_steps: u32,
) -> (r: Option<((i32, i32, i32), (i32, i32, i32))>)
    requires
        world.inv(),
        -0x20_0000_0000 <= origin.0 <= 0x20_0000_0000,
        -0x20_0000_0000 <= origin.1 <= 0x20_0000_0000,
        -0x20_0000_0000 <= origin.2 <= 0x20_0000_0000,
        -256 <= step.0 <= 256,
        -256 <= step.1 <= 256,
        -256 <= step.2 <= 256,
        max_steps <= 0x10_0000,
    ensures
        ({
            let o = (origin.0 as int, origin.1 as int, origin.2 as int);
            let d = (step.0 as int, step.1 as int, step.2 as int);
            match r {
                None => raycast_spec(world@, o, d, max_steps as int) is None,
                Some((c, nrm)) => raycast_spec(world@, o, d, max_steps as int) == Some(
                    (key_view(c), key_view(nrm)),
                ),
            }
        }),
{
    let ghost o = (origin.0 as int, origin.1 as int, origin.2 as int);
    let ghost d = (step.0 as int, step.1 as int, step.2 as int);
    let mut px = origin.0;
    let mut py = origin.1;
    let mut pz = origin.2;
    let mut prev: (i32, i32, i32) = (0, 0, 0);
    let mut k: u32 = 0;
    while k <= max_steps
        invariant
            world.inv(),
            -0x20_0000_0000 <= origin.0 <= 0x20_0000_0000,
            -0x20_0000_0000 <= origin.1 <= 0x20_0000_0000,
            -0x20_0000_0000 <= origin.2 <= 0x20_0000_0000,
            -256 <= step.0 <= 256,
            -256 <= step.1 <= 256,
            -256 <= step.2 <= 256,
            max_steps <= 0x10_0000,
            o == (origin.0 as int, origin.1 as int, origin.2 as int),
            d == (step.0 as int, step.1 as int, step.2 as int),
            k <= max_steps + 1,
            px == o.0 + k * d.0,
            py == o.1 + k * d.1,
            pz == o.2 + k * d.2,
            -0x21_0000_0000 <= px <= 0x21_0000_0000,
            -0x21_0000_0000 <= py <= 0x21_0000_0000,
            -0x21_0000_0000 <= pz <= 0x21_0000_0000,
            k >= 1 ==> key_view(prev) == sample_cell(o, d, k - 1),
            raycast_from(world@, o, d, 0, max_steps as int) == raycast_from(
                world@,
                o,
                d,
                k as int,
                max_steps as int,
            ),
        decreases max_steps + 1 - k,
    {
        let cx = fp_floor_i64(px);
        let cy = fp_floor_i64(py);
        let cz = fp_floor_i64(pz);
        proof {
            assert(key_view((cx, cy, cz)) == sample_cell(o, d, k as int));
        }
        let solid = match world.get_block(cx, cy, cz) {
            Some(b) => b != BlockID::Air,
            None => false,
        };
        if solid {
            let nrm: (i32, i32, i32) = if k == 0 {
                (0, 0, 0)
            } else {
                (
                    sgn_i64(prev.0 as i64 - cx as i64),
                    sgn_i64(prev.1 as i64 - cy as i64),
                    sgn_i64(prev.2 as i64 - cz as i64),
                )
            };
            proof {
                assert(hit_at(world@, o, d, k as int));
                assert(key_view(nrm) == entry_normal(o, d, k as int));
            }
            return Some(((cx, cy, cz), nrm));
        }
        prev = (cx, cy, cz);
        proof {
            let ki = k as int;
            let d0 = d.0;
            let d1 = d.1;
            let d2 = d.2;
            assert((ki + 1) * d0 == ki * d0 + d0) by (nonlinear_arith);
            assert((ki + 1) * d1 == ki * d1 + d1) by (nonlinear_arith);
            assert((ki + 1) * d2 == ki * d2 + d2) by (nonlinear_arith);
            assert(-0x1001_0000 <= (ki + 1) * d0 && (ki + 1) * d0 <= 0x1001_0000)
                by (nonlinear_arith)
                requires
                    0 <= ki + 1 <= 0x10_0001 && -256 <= d0 <= 256,
            ;
            assert(-0x1001_0000 <= (ki + 1) * d1 && (ki + 1) * d1 <= 0x1001_0000)
                by (nonlinear_arith)
                requires
                    0 <= ki + 1 <= 0x10_0001 && -256 <= d1 <= 256,
            ;
            assert(-0x1001_0000 <= (ki + 1) * d2 && (ki + 1) * d2 <= 0x1001_0000)
                by (nonlinear_arith)
                requires
                    0 <= ki + 1 <= 0x10_0001 && -256 <= d2 <= 256,
            ;
        }
        px = px + step.0;
        py = py + step.1;
        pz = pz + step.2;
        k = k + 1;
    }
    None
}

} // verus!