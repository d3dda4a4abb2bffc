//! The world generator: terrain columns and tree decoration.
//!
//! Terrain is built per `(x, z)` column: a height `h` (sampled outside this
//! module from a 2D noise function) becomes a four-block column — grass on
//! top of two dirt on top of cobblestone — and, with small probability, a
//! tree grows on it: a five-block trunk, two 5x5 leaf rings, one 3x3 leaf
//! ring, and a five-block leaf cap. All writes go through the chunk
//! manager's `set_block` and inherit its semantics: a write whose owning
//! chunk is not loaded is silently ignored, so the region must be
//! preloaded (see [`prepare_region`]) before generation runs.

use vstd::prelude::*;
use crate::block::BlockID;
use crate::chunk::{Chunk, ChunkView, chunk_wf, full_chunk};
use crate::chunk_manager::{
    ChunkManager, block_at, chunk_key, set_block_spec, lemma_set_block_effect,
};

verus! {

/// Relies on rand::random: an arbitrary value of the target type; nothing
/// is promised of it.
pub assume_specification<T>[ rand::random::<T> ]() -> (r: T)
    where
        rand::distributions::Standard: rand::distributions::Distribution<T>,
;

/// Every loaded chunk has a fully populated block array.
pub open spec fn all_wf(m: Map<(int, int, int), ChunkView>) -> bool {
    forall|c: (int, int, int)| m.contains_key(c) ==> chunk_wf(#[trigger] m[c])
}

/// What block writes never touch: which chunks are loaded, every chunk's
/// vertex data and block-array size, and the dirty flag of already dirty
/// chunks.
pub open spec fn frame_ok(
    m0: Map<(int, int, int), ChunkView>,
    m1: Map<(int, int, int), ChunkView>,
) -> bool {
    &&& forall|c: (int, int, int)| #[trigger] m1.contains_key(c) == m0.contains_key(c)
    &&& forall|c: (int, int, int)|
        m0.contains_key(c) ==> {
            let a = #[trigger] m1[c];
            &&& a.mesh == m0[c].mesh
            &&& a.vertices_drawn == m0[c].vertices_drawn
            &&& a.blocks.len() == m0[c].blocks.len()
            &&& (m0[c].dirty ==> a.dirty)
        }
}

/// One write, packaged for chaining: it preserves the frame and
/// well-formedness, and changes `block_at` at the written coordinate alone.
proof fn lemma_write(m: Map<(int, int, int), ChunkView>, x: int, y: int, z: int, b: BlockID)
    requires
        all_wf(m),
        i32::MIN <= x <= i32::MAX,
        i32::MIN <= y <= i32::MAX,
        i32::MIN <= z <= i32::MAX,
    ensures
        all_wf(set_block_spec(m, x, y, z, b)),
        frame_ok(m, set_block_spec(m, x, y, z, b)),
        forall|gx: int, gy: int, gz: int|
            (i32::MIN <= gx <= i32::MAX && i32::MIN <= gy <= i32::MAX && i32::MIN <= gz
                <= i32::MAX) ==> #[trigger] block_at(set_block_spec(m, x, y, z, b), gx, gy, gz)
                == (if gx == x && gy == y && gz == z && m.contains_key(chunk_key(x, y, z)) {
                Some(b)
            } else {
                block_at(m, gx, gy, gz)
            }),
{
    lemma_set_block_effect(m, x, y, z, b);
}

/// Frame preservation is transitive.
proof fn lemma_frame_trans(
    m0: Map<(int, int, int), ChunkView>,
    m1: Map<(int, int, int), ChunkView>,
    m2: Map<(int, int, int), ChunkView>,
)
    requires
        frame_ok(m0, m1),
        frame_ok(m1, m2),
    ensures
        frame_ok(m0, m2),
{
}

/// The four-block terrain column at `(x, z)` with surface height `h`:
/// grass on top, two dirt below it, cobblestone at the base.
pub open spec fn column_spec(
    m: Map<(int, int, int), ChunkView>,
    x: int,
    h: int,
    z: int,
) -> Map<(int, int, int), ChunkView> {
    set_block_spec(
        set_block_spec(
            set_block_spec(
                set_block_spec(m, x, h, z, BlockID::GrassBlock),
                x,
                h - 1,
                z,
                BlockID::Dirt,
            ),
            x,
            h - 2,
            z,
            BlockID::Dirt,
        ),
        x,
        h - 3,
        z,
        BlockID::Cobblestone,
    )
}

/// The block the plain (treeless) column formula puts at a coordinate, if
/// any.
pub open spec fn column_block(x: int, h: int, z: int, gx: int, gy: int, gz: int) -> Option<
    BlockID,
> {
    if gx == x && gz == z && gy == h {
        Some(BlockID::GrassBlock)
    } else if gx == x && gz == z && (gy == h - 1 || gy == h - 2) {
        Some(BlockID::Dirt)
    } else if gx == x && gz == z && gy == h - 3 {
        Some(BlockID::Cobblestone)
    } else {
        None
    }
}

/// What the column formula denotes, coordinate by coordinate: each of the
/// four cells reads back as its column block when its chunk is loaded, and
/// every other coordinate is untouched.
pub proof fn lemma_column_blocks(m: Map<(int, int, int), ChunkView>, x: int, h: int, z: int)
    requires
        all_wf(m),
        i32::MIN <= x <= i32::MAX,
        i32::MIN + 3 <= h <= i32::MAX,
        i32::MIN <= z <= i32::MAX,
    ensures
        all_wf(column_spec(m, x, h, z)),
        frame_ok(m, column_spec(m, x, h, z)),
        forall|gx: int, gy: int, gz: int|
            (i32::MIN <= gx <= i32::MAX && i32::MIN <= gy <= i32::MAX && i32::MIN <= gz
                <= i32::MAX) ==> #[trigger] block_at(column_spec(m, x, h, z), gx, gy, gz) == (
            match column_block(x, h, z, gx, gy, gz) {
                Some(b) => if m.contains_key(chunk_key(gx, gy, gz)) {
                    Some(b)
                } else {
                    block_at(m, gx, gy, gz)
                },
                None => block_at(m, gx, gy, gz),
            }),
{
    let m1 = set_block_spec(m, x, h, z, BlockID::GrassBlock);
    let m2 = set_block_spec(m1, x, h - 1, z, BlockID::Dirt);
    let m3 = set_block_spec(m2, x, h - 2, z, BlockID::Dirt);
    lemma_write(m, x, h, z, BlockID::GrassBlock);
    lemma_write(m1, x, h - 1, z, BlockID::Dirt);
    lemma_write(m2, x, h - 2, z, BlockID::Dirt);
    lemma_write(m3, x, h - 3, z, BlockID::Cobblestone);
}

/// Writes the four-block terrain column at `(x, z)` with surface height
/// `h`.
pub fn place_column(world: &mut ChunkManager, x: i32, h: i32, z: i32)
    requires
        old(world).inv(),
        h >= i32::MIN + 3,
    ensures
        final(world).inv(),
        final(world)@ == column_spec(old(world)@, x as int, h as int, z as int),
{
    world.set_block(x, h, z, BlockID::GrassBlock);
    world.set_block(x, h - 1, z, BlockID::Dirt);
    world.set_block(x, h - 2, z, BlockID::Dirt);
    world.set_block(x, h - 3, z, BlockID::Cobblestone);
}

/// A representable coordinate.
pub open spec fn in_i32(v: int) -> bool {
    i32::MIN <= v <= i32::MAX
}

/// The trunk of a tree grown on the surface block at `(x, y, z)`: the five
/// cells straight above it.
pub open spec fn trunk_region(x: int, y: int, z: int, gx: int, gy: int, gz: int) -> bool {
    gx == x && gz == z && y + 1 <= gy <= y + 5
}

/// One square leaf ring of radius `r` in the layer `gy == yy`, centred on
/// the trunk column but excluding it.
pub open spec fn ring_region(
    x: int,
    yy: int,
    z: int,
    r: int,
    gx: int,
    gy: int,
    gz: int,
) -> bool {
    gy == yy && x - r <= gx <= x + r && z - r <= gz <= z + r && !(gx == x && gz == z)
}

/// The leaf cap one layer above the trunk: the trunk column cell and its
/// four lateral neighbours.
pub open spec fn cap_region(x: int, y: int, z: int, gx: int, gy: int, gz: int) -> bool {
    gy == y + 6 && ((gx == x && z - 1 <= gz <= z + 1) || (gz == z && x - 1 <= gx <= x + 1))
}

/// The block a tree grown on the surface block at `(x, y, z)` puts at a
/// coordinate, if any: `OakLog` on the trunk, `OakLeaves` on the two
/// radius-2 rings, the radius-1 ring and the cap. The pieces are pairwise
/// disjoint (the rings exclude the trunk column), so the write order does
/// not matter.
pub open spec fn tree_block(x: int, y: int, z: int, gx: int, gy: int, gz: int) -> Option<
    BlockID,
> {
    if trunk_region(x, y, z, gx, gy, gz) {
        Some(BlockID::OakLog)
    } else if ring_region(x, y + 3, z, 2, gx, gy, gz) || ring_region(x, y + 4, z, 2, gx, gy, gz)
        || ring_region(x, y + 5, z, 1, gx, gy, gz) || cap_region(x, y, z, gx, gy, gz) {
        Some(BlockID::OakLeaves)
    } else {
        None
    }
}

/// Writes the five-block trunk above the surface block at `(x, y, z)`.
fn place_trunk(world: &mut ChunkManager, x: i32, y: i32, z: i32)
    requires
        old(world).inv(),
        y <= i32::MAX - 6,
    ensures
        final(world).inv(),
        all_wf(final(world)@),
        frame_ok(old(world)@, final(world)@),
        forall|gx: int, gy: int, gz: int|
            (in_i32(gx) && in_i32(gy) && in_i32(gz)) ==> #[trigger] block_at(
                final(world)@,
                gx,
                gy,
                gz,
            ) == (if trunk_region(x as int, y as int, z as int, gx, gy, gz) && old(
                world,
            )@.contains_key(chunk_key(gx, gy, gz)) {
                Some(BlockID::OakLog)
            } else {
                block_at(old(world)@, gx, gy, gz)
            }),
{
    proof {
        old(world).lemma_inv_view();
        assert(all_wf(old(world)@));
    }
    let mut i: i32 = 1;
    while i <= 5
        invariant
            world.inv(),
            1 <= i <= 6,
            y <= i32::MAX - 6,
            all_wf(world@),
            frame_ok(old(world)@, world@),
            forall|gx: int, gy: int, gz: int|
                (in_i32(gx) && in_i32(gy) && in_i32(gz)) ==> #[trigger] block_at(
                    world@,
                    gx,
                    gy,
                    gz,
                ) == (if gx == x && gz == z && y + 1 <= gy <= y + i - 1 && old(
                    world,
                )@.contains_key(chunk_key(gx, gy, gz)) {
                    Some(BlockID::OakLog)
                } else {
                    block_at(old(world)@, gx, gy, gz)
                }),
        decreases 6 - i,
    {
        let ghost prev = world@;
        world.set_block(x, y + i, z, BlockID::OakLog);
        proof {
            lemma_write(prev, x as int, y + i as int, z as int, BlockID::OakLog);
            lemma_frame_trans(old(world)@, prev, world@);
        }
        i = i + 1;
    }
}

/// Writes one square leaf ring of radius `r` (1 or 2) in layer `yy`,
/// centred on `(x, z)`, skipping the trunk column.
fn place_leaf_ring(world: &mut ChunkManager, x: i32, yy: i32, z: i32, r: i32)
    requires
        old(world).inv(),
        r == 1 || r == 2,
        i32::MIN + 2 <= x <= i32::MAX - 3,
        i32::MIN + 2 <= z <= i32::MAX - 3,
    ensures
        final(world).inv(),
        all_wf(final(world)@),
        frame_ok(old(world)@, final(world)@),
        forall|gx: int, gy: int, gz: int|
            (in_i32(gx) && in_i32(gy) && in_i32(gz)) ==> #[trigger] block_at(
                final(world)@,
                gx,
                gy,
                gz,
            ) == (if ring_region(x as int, yy as int, z as int, r as int, gx, gy, gz) && old(
                world,
            )@.contains_key(chunk_key(gx, gy, gz)) {
                Some(BlockID::OakLeaves)
            } else {
                block_at(old(world)@, gx, gy, gz)
            }),
{
    proof {
        old(world).lemma_inv_view();
        assert(all_wf(old(world)@));
    }
    let mut xx: i32 = x - r;
    while xx <= x + r
        invariant
            world.inv(),
            r == 1 || r == 2,
            i32::MIN + 2 <= x <= i32::MAX - 3,
            i32::MIN + 2 <= z <= i32::MAX - 3,
            x - r <= xx <= x + r + 1,
            all_wf(world@),
            frame_ok(old(world)@, world@),
            forall|gx: int, gy: int, gz: int|
                (in_i32(gx) && in_i32(gy) && in_i32(gz)) ==> #[trigger] block_at(
                    world@,
                    gx,
                    gy,
                    gz,
                ) == (if ring_region(x as int, yy as int, z as int, r as int, gx, gy, gz) && gx
                    < xx && old(world)@.contains_key(chunk_key(gx, gy, gz)) {
                    Some(BlockID::OakLeaves)
                } else {
                    block_at(old(world)@, gx, gy, gz)
                }),
        decreases x + r + 1 - xx,
    {
        let mut zz: i32 = z - r;
        while zz <= z + r
            invariant
                world.inv(),
                r == 1 || r == 2,
                i32::MIN + 2 <= x <= i32::MAX - 3,
                i32::MIN + 2 <= z <= i32::MAX - 3,
                x - r <= xx <= x + r,
                z - r <= zz <= z + r + 1,
                all_wf(world@),
                frame_ok(old(world)@, world@),
                forall|gx: int, gy: int, gz: int|
                    (in_i32(gx) && in_i32(gy) && in_i32(gz)) ==> #[trigger] block_at(
                        world@,
                        gx,
                        gy,
                        gz,
                    ) == (if ring_region(x as int, yy as int, z as int, r as int, gx, gy, gz) && (
                    gx < xx || (gx == xx && gz < zz)) && old(world)@.contains_key(
                        chunk_key(gx, gy, gz),
                    ) {
                        Some(BlockID::OakLeaves)
                    } else {
                        block_at(old(world)@, gx, gy, gz)
                    }),
            decreases z + r + 1 - zz,
        {
            if xx != x || zz != z {
                let ghost prev = world@;
                world.set_block(xx, yy, zz, BlockID::OakLeaves);
                proof {
                    lemma_write(prev, xx as int, yy as int, zz as int, BlockID::OakLeaves);
                    lemma_frame_trans(old(world)@, prev, world@);
                }
            }
            zz = zz + 1;
        }
        xx = xx + 1;
    }
}

/// Writes the five-block leaf cap one layer above the trunk top.
fn place_cap(world: &mut ChunkManager, x: i32, y: i32, z: i32)
    requires
        old(world).inv(),
        y <= i32::MAX - 6,
        i32::MIN + 1 <= x <= i32::MAX - 1,
        i32::MIN + 1 <= z <= i32::MAX - 1,
    ensures
        final(world).inv(),
        all_wf(final(world)@),
        frame_ok(old(world)@, final(world)@),
        forall|gx: int, gy: int, gz: int|
            (in_i32(gx) && in_i32(gy) && in_i32(gz)) ==> #[trigger] block_at(
                final(world)@,
                gx,
                gy,
                gz,
            ) == (if cap_region(x as int, y as int, z as int, gx, gy, gz) && old(
                world,
            )@.contains_key(chunk_key(gx, gy, gz)) {
                Some(BlockID::OakLeaves)
            } else {
                block_at(old(world)@, gx, gy, gz)
            }),
{
    proof {
        old(world).lemma_inv_view();
        assert(all_wf(old(world)@));
    }
    let ghost m0 = world@;
    world.set_block(x, y + 6, z, BlockID::OakLeaves);
    let ghost m1 = world@;
    proof {
        lemma_write(m0, x as int, y + 6 as int, z as int, BlockID::OakLeaves);
    }
    world.set_block(x + 1, y + 6, z, BlockID::OakLeaves);
    let ghost m2 = world@;
    proof {
        lemma_write(m1, x + 1 as int, y + 6 as int, z as int, BlockID::OakLeaves);
        lemma_frame_trans(m0, m1, m2);
    }
    world.set_block(x - 1, y + 6, z, BlockID::OakLeaves);
    let ghost m3 = world@;
    proof {
        lemma_write(m2, x - 1 as int, y + 6 as int, z as int, BlockID::OakLeaves);
        lemma_frame_trans(m0, m2, m3);
    }
    world.set_block(x, y + 6, z + 1, BlockID::OakLeaves);
    let ghost m4 = world@;
    proof {
        lemma_write(m3, x as int, y + 6 as int, z + 1 as int, BlockID::OakLeaves);
        lemma_frame_trans(m0, m3, m4);
    }
    world.set_block(x, y + 6, z - 1, BlockID::OakLeaves);
    proof {
        lemma_write(m4, x as int, y + 6 as int, z - 1 as int, BlockID::OakLeaves);
        lemma_frame_trans(m0, m4, world@);
    }
}

/// Grows a tree on the surface block at `(x, y, z)`: trunk, two wide leaf
/// rings, one narrow ring, and the cap. Writes into unloaded chunks are
/// silently dropped, like every block write.
pub fn place_tree(world: &mut ChunkManager, x: i32, y: i32, z: i32)
    requires
        old(world).inv(),
        y <= i32::MAX - 6,
        i32::MIN + 2 <= x <= i32::MAX - 3,
        i32::MIN + 2 <= z <= i32::MAX - 3,
    ensures
        final(world).inv(),
        frame_ok(old(world)@, final(world)@),
        forall|gx: int, gy: int, gz: int|
            (in_i32(gx) && in_i32(gy) && in_i32(gz)) ==> #[trigger] block_at(
                final(world)@,
                gx,
                gy,
                gz,
            ) == (match tree_block(x as int, y as int, z as int, gx, gy, gz) {
                Some(b) => if old(world)@.contains_key(chunk_key(gx, gy, gz)) {
                    Some(b)
                } else {
                    block_at(old(world)@, gx, gy, gz)
                },
                None => block_at(old(world)@, gx, gy, gz),
            }),
{
    let ghost m0 = world@;
    place_trunk(world, x, y, z);
    let ghost m1 = world@;
    place_leaf_ring(world, x, y + 3, z, 2);
    let ghost m2 = world@;
    proof {
        lemma_frame_trans(m0, m1, m2);
    }
    place_leaf_ring(world, x, y + 4, z, 2);
    let ghost m3 = world@;
    proof {
        lemma_frame_trans(m0, m2, m3);
    }
    place_leaf_ring(world, x, y + 5, z, 1);
    let ghost m4 = world@;
    proof {
        lemma_frame_trans(m0, m3, m4);
    }
    place_cap(world, x, y, z);
    proof {
        lemma_frame_trans(m0, m4, world@);
    }
}

/// The block one generated column leaves at a coordinate: the terrain
/// column's block, overlaid (when a tree was planted) by the tree's blocks.
pub open spec fn generated_block(
    x: int,
    h: int,
    z: int,
    planted: bool,
    gx: int,
    gy: int,
    gz: int,
) -> Option<BlockID> {
    if planted && tree_block(x, h, z, gx, gy, gz).is_some() {
        tree_block(x, h, z, gx, gy, gz)
    } else {
        column_block(x, h, z, gx, gy, gz)
    }
}

/// Generates one `(x, z)` terrain column of surface height `h`: the
/// four-block column always, and, with probability 1/100 drawn from the
/// process random generator, a tree on top of it. Returns whether the tree
/// was planted.
pub fn generate_column(world: &mut ChunkManager, x: i32, z: i32, h: i32) -> (planted: bool)
    requires
        old(world).inv(),
        i32::MIN + 3 <= h <= i32::MAX - 6,
        i32::MIN + 2 <= x <= i32::MAX - 3,
        i32::MIN + 2 <= z <= i32::MAX - 3,
    ensures
        final(world).inv(),
        frame_ok(old(world)@, final(world)@),
        forall|gx: int, gy: int, gz: int|
            (in_i32(gx) && in_i32(gy) && in_i32(gz)) ==> #[trigger] block_at(
                final(world)@,
                gx,
                gy,
                gz,
            ) == (match generated_block(x as int, h as int, z as int, planted, gx, gy, gz) {
                Some(b) => if old(world)@.contains_key(chunk_key(gx, gy, gz)) {
                    Some(b)
                } else {
                    block_at(old(world)@, gx, gy, gz)
                },
                None => block_at(old(world)@, gx, gy, gz),
            }),
{
    let ghost m0 = world@;
    proof {
        old(world).lemma_inv_view();
        assert(all_wf(m0));
        lemma_column_blocks(m0, x as int, h as int, z as int);
    }
    place_column(world, x, h, z);
    let ghost m1 = world@;
    let r: u32 = rand::random::<u32>();
    let planted = r % 100 == 0;
    if planted {
        place_tree(world, x, h, z);
        proof {
            lemma_frame_trans(m0, m1, world@);
        }
    }
    planted
}

/// The chunk keys that [`prepare_region`] loads: chunk layers 0 to 15
/// vertically, and `[-n, n]` on both horizontal axes.
pub open spec fn region_key(n: int, c: (int, int, int)) -> bool {
    &&& -n <= c.0 <= n
    &&& 0 <= c.1 <= 15
    &&& -n <= c.2 <= n
}

/// The region keys filled before the one at `(x, y, z)` in the fill order
/// (y-major, then z, then x).
pub open spec fn region_done(n: int, c: (int, int, int), y: int, z: int, x: int) -> bool {
    region_key(n, c) && (c.1 < y || (c.1 == y && (c.2 < z || (c.2 == z && c.0 < x))))
}

/// Loads empty (all-`Air`) chunks over the whole generation region, so that
/// the generator's block writes find their chunks loaded. Chunks already
/// loaded in the region are replaced by empty ones; chunks outside it are
/// untouched.
pub fn prepare_region(world: &mut ChunkManager, n: i32)
    requires
        old(world).inv(),
        0 <= n <= 100,
    ensures
        final(world).inv(),
        forall|c: (int, int, int)|
            #[trigger] final(world)@.contains_key(c) <==> (old(world)@.contains_key(c)
                || region_key(n as int, c)),
        forall|c: (int, int, int)|
            region_key(n as int, c) ==> full_chunk(#[trigger] final(world)@[c], BlockID::Air),
        forall|c: (int, int, int)|
            old(world)@.contains_key(c) && !region_key(n as int, c)
                ==> #[trigger] final(world)@[c] == old(world)@[c],
{
    let mut y: i32 = 0;
    while y < 16
        invariant
            world.inv(),
            0 <= n <= 100,
            0 <= y <= 16,
            forall|c: (int, int, int)|
                #[trigger] world@.contains_key(c) <==> (old(world)@.contains_key(c) || region_done(
                    n as int,
                    c,
                    y as int,
                    -(n as int),
                    -(n as int),
                )),
            forall|c: (int, int, int)|
                region_done(n as int, c, y as int, -(n as int), -(n as int)) ==> full_chunk(
                    #[trigger] world@[c],
                    BlockID::Air,
                ),
            forall|c: (int, int, int)|
                world@.contains_key(c) && !region_done(n as int, c, y as int, -(n as int), -(n as int))
                    ==> #[trigger] world@[c] == old(world)@[c],
        decreases 16 - y,
    {
        let mut z: i32 = -n;
        while z <= n
            invariant
                world.inv(),
                0 <= n <= 100,
                0 <= y < 16,
                -n <= z <= n + 1,
                forall|c: (int, int, int)|
                    #[trigger] world@.contains_key(c) <==> (old(world)@.contains_key(c)
                        || region_done(n as int, c, y as int, z as int, -(n as int))),
                forall|c: (int, int, int)|
                    region_done(n as int, c, y as int, z as int, -(n as int)) ==> full_chunk(
                        #[trigger] world@[c],
                        BlockID::Air,
                    ),
                forall|c: (int, int, int)|
                    world@.contains_key(c) && !region_done(
                        n as int,
                        c,
                        y as int,
                        z as int,
                        -(n as int),
                    ) ==> #[trigger] world@[c] == old(world)@[c],
            decreases n + 1 - z,
        {
            let mut x: i32 = -n;
            while x <= n
                invariant
                    world.inv(),
                    0 <= n <= 100,
                    0 <= y < 16,
                    -n <= z <= n,
                    -n <= x <= n + 1,
                    forall|c: (int, int, int)|
                        #[trigger] world@.contains_key(c) <==> (old(world)@.contains_key(c)
                            || region_done(n as int, c, y as int, z as int, x as int)),
                    forall|c: (int, int, int)|
                        region_done(n as int, c, y as int, z as int, x as int) ==> full_chunk(
                            #[trigger] world@[c],
                            BlockID::Air,
                        ),
                    forall|c: (int, int, int)|
                        world@.contains_key(c) && !region_done(
                            n as int,
                            c,
                            y as int,
                            z as int,
                            x as int,
                        ) ==> #[trigger] world@[c] == old(world)@[c],
                decreases n + 1 - x,
            {
                let chunk = Chunk::empty();
                world.load_chunk((x, y, z), chunk);
                x = x + 1;
            }
            z = z + 1;
        }
        y = y + 1;
    }
}

} // verus!
