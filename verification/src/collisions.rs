//! AABB collision against the voxel grid.
//!
//! The resolver sweeps the player's box axis by axis, in the fixed order
//! y, then x, then z: for each axis it clamps the prospective displacement
//! against every solid block cell in the swept region and zeroes the
//! velocity component when the clamp bit. Coordinates are fixed-point
//! (256 subunits per world unit), so resting exactly against a block face
//! is representable and the floor clamp is exact.

use vstd::prelude::*;
use vstd::arithmetic::div_mod::{lemma_fundamental_div_mod, lemma_mod_bound};
use crate::aabb::{AABB, aabb_min, aabb_max, translated, axis_overlap};
use crate::chunk::ChunkView;
use crate::chunk_manager::ChunkManager;
use crate::raycast::{fp_floor, fp_floor_i64, solid_at};

verus! {

/// The moving player's box and velocity, in fixed-point subunits (per
/// frame).
pub struct PlayerState {
    pub aabb: AABB,
    pub velocity: (i64, i64, i64),
}

/// The component of a cell coordinate on one axis.
pub open spec fn cell_axis(c: (int, int, int), axis: int) -> int {
    if axis == 0 {
        c.0
    } else if axis == 1 {
        c.1
    } else {
        c.2
    }
}

/// Whether the box overlaps cell `c` on both axes other than `axis`.
pub open spec fn lateral_overlap(a: AABB, axis: int, c: (int, int, int)) -> bool {
    if axis == 0 {
        axis_overlap(a, 1, c.1) && axis_overlap(a, 2, c.2)
    } else if axis == 1 {
        axis_overlap(a, 0, c.0) && axis_overlap(a, 2, c.2)
    } else {
        axis_overlap(a, 0, c.0) && axis_overlap(a, 1, c.1)
    }
}

/// What the clamped displacement of one axis sweep must satisfy: `r` lies
/// between zero and the requested displacement `d`; no solid cell ahead of
/// the leading face is penetrated (`r` never exceeds the gap to any
/// laterally overlapping obstacle); and `r` falls short of `d` only flush
/// against such an obstacle. These clauses pin `r` uniquely: it is the
/// smaller of `d` and the gap to the nearest obstacle in the swept region.
pub open spec fn sweep_ok(
    m: Map<(int, int, int), ChunkView>,
    a: AABB,
    axis: int,
    d: int,
    r: int,
) -> bool {
    &&& (d >= 0 ==> 0 <= r <= d)
    &&& (d < 0 ==> d <= r <= 0)
    &&& forall|c: (int, int, int)|
        (#[trigger] solid_at(m, c.0, c.1, c.2)) && lateral_overlap(a, axis, c) ==> {
            &&& (d >= 0 && 256 * cell_axis(c, axis) >= aabb_max(a, axis) ==> aabb_max(a, axis) + r
                <= 256 * cell_axis(c, axis))
            &&& (d < 0 && 256 * cell_axis(c, axis) + 256 <= aabb_min(a, axis) ==> 256 * cell_axis(
                c,
                axis,
            ) + 256 <= aabb_min(a, axis) + r)
        }
    &&& (r == d || exists|c: (int, int, int)|
        (#[trigger] solid_at(m, c.0, c.1, c.2)) && lateral_overlap(a, axis, c) && (if d >= 0 {
            256 * cell_axis(c, axis) == aabb_max(a, axis) + r
        } else {
            256 * cell_axis(c, axis) + 256 == aabb_min(a, axis) + r
        }))
}

/// A box a sweep accepts: positive extent, with coordinates bounded so
/// that all cell arithmetic stays in range.
pub open spec fn sweep_box(a: AABB) -> bool {
    &&& a.min_x < a.max_x
    &&& a.min_y < a.max_y
    &&& a.min_z < a.max_z
    &&& -0x20_1000_0000 <= a.min_x && a.max_x <= 0x20_1000_0000
    &&& -0x20_1000_0000 <= a.min_y && a.max_y <= 0x20_1000_0000
    &&& -0x20_1000_0000 <= a.min_z && a.max_z <= 0x20_1000_0000
}

/// The cells whose span overlaps the box's extent on axis `ax` are exactly
/// those from `floor(min / 256)` to `floor((max - 1) / 256)`.
proof fn lemma_axis_cells(a: AABB, ax: int)
    requires
        aabb_min(a, ax) < aabb_max(a, ax),
    ensures
        forall|c: int|
            #[trigger] axis_overlap(a, ax, c) <==> (fp_floor(aabb_min(a, ax)) <= c <= fp_floor(
                aabb_max(a, ax) - 1,
            )),
{
    let mn = aabb_min(a, ax);
    let mx = aabb_max(a, ax);
    lemma_fundamental_div_mod(mn, 256);
    lemma_mod_bound(mn, 256);
    lemma_fundamental_div_mod(mx - 1, 256);
    lemma_mod_bound(mx - 1, 256);
}

/// The cells strictly ahead of a leading face at `mx`, within the sweep
/// distance `d`, are exactly those from `floor((mx + 255) / 256)` to
/// `floor((mx + d - 1) / 256)`.
proof fn lemma_ahead_cells(mx: int, d: int)
    requires
        d >= 0,
    ensures
        forall|cm: int| #![trigger 256 * cm]
            (256 * cm >= mx && 256 * cm < mx + d) <==> (fp_floor(mx + 255) <= cm <= fp_floor(
                mx + d - 1,
            )),
{
    lemma_fundamental_div_mod(mx + 255, 256);
    lemma_mod_bound(mx + 255, 256);
    lemma_fundamental_div_mod(mx + d - 1, 256);
    lemma_mod_bound(mx + d - 1, 256);
}

/// The cells strictly behind a trailing face at `mn`, within the sweep
/// distance `d < 0`, are exactly those from `floor((mn + d) / 256)` to
/// `floor(mn / 256) - 1`.
proof fn lemma_behind_cells(mn: int, d: int)
    requires
        d < 0,
    ensures
        forall|cm: int| #![trigger 256 * (cm + 1)]
            (256 * (cm + 1) <= mn && 256 * (cm + 1) > mn + d) <==> (fp_floor(mn + d) <= cm
                <= fp_floor(mn) - 1),
{
    lemma_fundamental_div_mod(mn + d, 256);
    lemma_mod_bound(mn + d, 256);
    lemma_fundamental_div_mod(mn, 256);
    lemma_mod_bound(mn, 256);
}

/// The box's lower bound on one axis, executably.
fn axis_min_of(a: &AABB, axis: usize) -> (r: i64)
    requires
        axis < 3,
    ensures
        r == aabb_min(*a, axis as int),
{
    if axis == 0 {
        a.min_x
    } else if axis == 1 {
        a.min_y
    } else {
        a.min_z
    }
}

/// The box's upper bound on one axis, executably.
fn axis_max_of(a: &AABB, axis: usize) -> (r: i64)
    requires
        axis < 3,
    ensures
        r == aabb_max(*a, axis as int),
{
    if axis == 0 {
        a.max_x
    } else if axis == 1 {
        a.max_y
    } else {
        a.max_z
    }
}

/// Whether any solid block in the moving-axis layer `cm` overlaps the
/// box's lateral extent.
fn any_solid_lateral(world: &ChunkManager, a: &AABB, axis: usize, cm: i64) -> (found: bool)
    requires
        world.inv(),
        axis < 3,
        sweep_box(*a),
        -0x2200_0000 <= cm <= 0x2200_0000,
    ensures
        found == exists|c: (int, int, int)|
            (#[trigger] solid_at(world@, c.0, c.1, c.2)) && lateral_overlap(*a, axis as int, c)
                && cell_axis(c, axis as int) == cm,
{
    let l1: usize = if axis == 0 {
        1
    } else {
        0
    };
    let l2: usize = if axis == 2 {
        1
    } else {
        2
    };
    let lo1 = fp_floor_i64(axis_min_of(a, l1));
    let hi1 = fp_floor_i64(axis_max_of(a, l1) - 1);
    let lo2 = fp_floor_i64(axis_min_of(a, l2));
    let hi2 = fp_floor_i64(axis_max_of(a, l2) - 1);
    proof {
        lemma_axis_cells(*a, l1 as int);
        lemma_axis_cells(*a, l2 as int);
    }
    let mut u = lo1;
    while u <= hi1
        invariant
            world.inv(),
            axis < 3,
            sweep_box(*a),
            -0x2200_0000 <= cm <= 0x2200_0000,
            l1 == (if axis == 0 { 1int } else { 0int }),
            l2 == (if axis == 2 { 1int } else { 2int }),
            lo1 == fp_floor(aabb_min(*a, l1 as int)),
            hi1 == fp_floor(aabb_max(*a, l1 as int) - 1),
            lo2 == fp_floor(aabb_min(*a, l2 as int)),
            hi2 == fp_floor(aabb_max(*a, l2 as int) - 1),
            lo1 <= u <= hi1 + 1,
            forall|c: (int, int, int)|
                (#[trigger] solid_at(world@, c.0, c.1, c.2)) && lateral_overlap(
                    *a,
                    axis as int,
                    c,
                ) && cell_axis(c, axis as int) == cm ==> cell_axis(c, l1 as int) >= u,
        decreases hi1 + 1 - u,
    {
        let mut v = lo2;
        while v <= hi2
            invariant
                world.inv(),
                axis < 3,
                sweep_box(*a),
                -0x2200_0000 <= cm <= 0x2200_0000,
                l1 == (if axis == 0 { 1int } else { 0int }),
                l2 == (if axis == 2 { 1int } else { 2int }),
                lo1 == fp_floor(aabb_min(*a, l1 as int)),
                hi1 == fp_floor(aabb_max(*a, l1 as int) - 1),
                lo2 == fp_floor(aabb_min(*a, l2 as int)),
                hi2 == fp_floor(aabb_max(*a, l2 as int) - 1),
                lo1 <= u <= hi1,
                lo2 <= v <= hi2 + 1,
                -0x2200_0000 <= u <= 0x2200_0000,
                forall|c: (int, int, int)|
                    (#[trigger] solid_at(world@, c.0, c.1, c.2)) && lateral_overlap(
                        *a,
                        axis as int,
                        c,
                    ) && cell_axis(c, axis as int) == cm ==> (cell_axis(c, l1 as int) > u || (
                    cell_axis(c, l1 as int) == u && cell_axis(c, l2 as int) >= v)),
            decreases hi2 + 1 - v,
        {
            proof {
                lemma_axis_cells(*a, l1 as int);
                lemma_axis_cells(*a, l2 as int);
            }
            let (cx, cy, cz): (i32, i32, i32) = if axis == 0 {
                (cm as i32, u, v)
            } else if axis == 1 {
                (u, cm as i32, v)
            } else {
                (u, v, cm as i32)
            };
            let solid = match world.get_block(cx, cy, cz) {
                Some(b) => !matches!(b, crate::block::BlockID::Air),
                None => false,
            };
            if solid {
                proof {
                    let c = (cx as int, cy as int, cz as int);
                    assert(solid_at(world@, c.0, c.1, c.2));
                    assert(lateral_overlap(*a, axis as int, c));
                    assert(cell_axis(c, axis as int) == cm);
                }
                return true;
            }
            v = v + 1;
        }
        u = u + 1;
    }
    proof {
        lemma_axis_cells(*a, l1 as int);
        lemma_axis_cells(*a, l2 as int);
    }
    false
}

/// Sweeps the box along one axis by the prospective displacement `d` and
/// returns the clamped displacement: the full `d` when the path is clear,
/// otherwise the exact gap to the nearest solid cell in the way.
pub fn sweep_axis(world: &ChunkManager, a: &AABB, axis: usize, d: i64) -> (r: i64)
    requires
        world.inv(),
        axis < 3,
        sweep_box(*a),
        -0x100_0000 <= d <= 0x100_0000,
    ensures
        sweep_ok(world@, *a, axis as int, d as int, r as int),
        -0x100_0000 <= r <= 0x100_0000,
{
    if d >= 0 {
        let mx = axis_max_of(a, axis);
        let lo = fp_floor_i64(mx + 255);
        let hi = fp_floor_i64(mx + d - 1);
        proof {
            lemma_ahead_cells(mx as int, d as int);
        }
        let mut r = d;
        let mut cm = lo;
        while cm <= hi
            invariant
                world.inv(),
                axis < 3,
                sweep_box(*a),
                0 <= d <= 0x100_0000,
                mx == aabb_max(*a, axis as int),
                lo == fp_floor(mx + 255),
                hi == fp_floor(mx + d - 1),
                lo <= cm <= hi + 1,
                0 <= r <= d,
                forall|c: (int, int, int)|
                    (#[trigger] solid_at(world@, c.0, c.1, c.2)) && lateral_overlap(
                        *a,
                        axis as int,
                        c,
                    ) && 256 * cell_axis(c, axis as int) >= mx && cell_axis(c, axis as int) < cm
                        ==> mx + r <= 256 * cell_axis(c, axis as int),
                r == d || exists|c: (int, int, int)|
                    (#[trigger] solid_at(world@, c.0, c.1, c.2)) && lateral_overlap(
                        *a,
                        axis as int,
                        c,
                    ) && 256 * cell_axis(c, axis as int) == mx + r,
            decreases hi + 1 - cm,
        {
            proof {
                lemma_ahead_cells(mx as int, d as int);
            }
            if any_solid_lateral(world, a, axis, cm as i64) {
                let g = (cm as i64) * 256 - mx;
                if g < r {
                    r = g;
                }
            }
            cm = cm + 1;
        }
        proof {
            lemma_ahead_cells(mx as int, d as int);
        }
        r
    } else {
        let mn = axis_min_of(a, axis);
        let lo = fp_floor_i64(mn + d);
        let hi = fp_floor_i64(mn) - 1;
        proof {
            lemma_behind_cells(mn as int, d as int);
        }
        let mut r = d;
        let mut cm = lo;
        while cm <= hi
            invariant
                world.inv(),
                axis < 3,
                sweep_box(*a),
                -0x100_0000 <= d < 0,
                mn == aabb_min(*a, axis as int),
                lo == fp_floor(mn + d),
                hi == fp_floor(mn as int) - 1,
                lo <= cm <= hi + 1,
                d <= r <= 0,
                forall|c: (int, int, int)|
                    (#[trigger] solid_at(world@, c.0, c.1, c.2)) && lateral_overlap(
                        *a,
                        axis as int,
                        c,
                    ) && 256 * cell_axis(c, axis as int) + 256 <= mn && cell_axis(c, axis as int)
                        < cm ==> 256 * cell_axis(c, axis as int) + 256 <= mn + r,
                r == d || exists|c: (int, int, int)|
                    (#[trigger] solid_at(world@, c.0, c.1, c.2)) && lateral_overlap(
                        *a,
                        axis as int,
                        c,
                    ) && 256 * cell_axis(c, axis as int) + 256 == mn + r,
            decreases hi + 1 - cm,
        {
            proof {
                lemma_behind_cells(mn as int, d as int);
            }
            if any_solid_lateral(world, a, axis, cm as i64) {
                let g = (cm as i64 + 1) * 256 - mn;
                if g > r {
                    r = g;
                }
            }
            cm = cm + 1;
        }
        proof {
            lemma_behind_cells(mn as int, d as int);
        }
        r
    }
}

/// Resolves one frame of player motion against the voxel grid: sweeps the
/// box along y, then x, then z, moving it by each axis's clamped
/// displacement and zeroing the velocity component of every axis whose
/// sweep was clamped.
pub fn player_collision_detection(player: &mut PlayerState, world: &ChunkManager)
    requires
        world.inv(),
        old(player).aabb.wf(),
        -0x1F_0000_0000 <= old(player).aabb.min_x,
        old(player).aabb.max_x <= 0x1F_0000_0000,
        -0x1F_0000_0000 <= old(player).aabb.min_y,
        old(player).aabb.max_y <= 0x1F_0000_0000,
        -0x1F_0000_0000 <= old(player).aabb.min_z,
        old(player).aabb.max_z <= 0x1F_0000_0000,
        -0x100_0000 <= old(player).velocity.0 <= 0x100_0000,
        -0x100_0000 <= old(player).velocity.1 <= 0x100_0000,
        -0x100_0000 <= old(player).velocity.2 <= 0x100_0000,
    ensures
        ({
            let a0 = old(player).aabb;
            let v = old(player).velocity;
            let ty = final(player).aabb.min_y - a0.min_y;
            let a1 = translated(a0, 1, ty);
            let tx = final(player).aabb.min_x - a0.min_x;
            let a2 = translated(a1, 0, tx);
            let tz = final(player).aabb.min_z - a0.min_z;
            &&& sweep_ok(world@, a0, 1, v.1 as int, ty)
            &&& sweep_ok(world@, a1, 0, v.0 as int, tx)
            &&& sweep_ok(world@, a2, 2, v.2 as int, tz)
            &&& final(player).aabb == translated(a2, 2, tz)
            &&& final(player).velocity.1 == (if ty == v.1 { v.1 } else { 0 })
            &&& final(player).velocity.0 == (if tx == v.0 { v.0 } else { 0 })
            &&& final(player).velocity.2 == (if tz == v.2 { v.2 } else { 0 })
        }),
{
    let vy = player.velocity.1;
    let ry = sweep_axis(world, &player.aabb, 1, vy);
    player.aabb = player.aabb.translate(1, ry);
    if ry != vy {
        player.velocity.1 = 0;
    }
    let vx = player.velocity.0;
    let rx = sweep_axis(world, &player.aabb, 0, vx);
    player.aabb = player.aabb.translate(0, rx);
    if rx != vx {
        player.velocity.0 = 0;
    }
    let vz = player.velocity.2;
    let rz = sweep_axis(world, &player.aabb, 2, vz);
    player.aabb = player.aabb.translate(2, rz);
    if rz != vz {
        player.velocity.2 = 0;
    }
}

/// The floor clamp: a box resting exactly on top of a solid block (some
/// laterally overlapping cell's top face is flush with the box's bottom)
/// gets zero vertical displacement from a downward sweep.
pub proof fn lemma_floor_clamp(
    m: Map<(int, int, int), ChunkView>,
    a: AABB,
    d: int,
    r: int,
)
    requires
        sweep_ok(m, a, 1, d, r),
        d <= 0,
        exists|c: (int, int, int)|
            (#[trigger] solid_at(m, c.0, c.1, c.2)) && lateral_overlap(a, 1, c) && 256 * c.1 + 256
                == aabb_min(a, 1),
    ensures
        r == 0,
{
    if d < 0 {
        let c = choose|c: (int, int, int)|
            (#[trigger] solid_at(m, c.0, c.1, c.2)) && lateral_overlap(a, 1, c) && 256 * c.1 + 256
                == aabb_min(a, 1);
        assert(cell_axis(c, 1) == c.1);
    }
}

} // verus!