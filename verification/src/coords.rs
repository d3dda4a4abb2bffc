//! The coordinate mapper: global signed block coordinates against
//! (chunk coordinate, local block coordinate) pairs.
//!
//! Per axis, a global coordinate `n` lives in chunk `floor(n / 16)` at local
//! offset `n - 16 * floor(n / 16)`, which is in `[0, 16)` for every signed
//! `n` (Euclidean division, not truncation). Inside a chunk, the cell at
//! local `(x, y, z)` has the flat index `256*y + 16*z + x`: blocks are laid
//! out y-major, then z, then x, and every pass over a chunk walks them in
//! that same order.

use vstd::prelude::*;
use vstd::arithmetic::div_mod::{lemma_fundamental_div_mod, lemma_div_is_ordered};

verus! {

/// Chunk coordinates that the mapper can produce lie in
/// `[CHUNK_COORD_MIN, CHUNK_COORD_MAX]`, so that composing them back always
/// fits in an `i32`.
pub const CHUNK_COORD_MIN: i32 = -0x800_0000;

/// See [`CHUNK_COORD_MIN`].
pub const CHUNK_COORD_MAX: i32 = 0x7ff_ffff;

/// The chunk that owns global coordinate `n` on one axis: `floor(n / 16)`.
pub open spec fn chunk_coord(n: int) -> int {
    n / 16
}

/// The local offset of global coordinate `n` inside its chunk: always in
/// `[0, 16)`, whatever the sign of `n`.
pub open spec fn local_coord(n: int) -> int {
    n % 16
}

/// The global coordinate of local offset `b` in chunk `c`, on one axis.
pub open spec fn global_coord(c: int, b: int) -> int {
    16 * c + b
}

/// The flat cell index of local position `(bx, by, bz)`: y-major, then z,
/// then x.
pub open spec fn block_index(bx: int, by: int, bz: int) -> int {
    256 * by + 16 * bz + bx
}

/// The local x of flat cell index `i`.
pub open spec fn cell_x(i: int) -> int {
    i % 16
}

/// The local z of flat cell index `i`.
pub open spec fn cell_z(i: int) -> int {
    (i / 16) % 16
}

/// The local y of flat cell index `i`.
pub open spec fn cell_y(i: int) -> int {
    i / 256
}

/// Decomposing and recomposing one axis is the identity, the chunk
/// coordinate stays in composable range, and the local offset is in
/// `[0, 16)` for every representable input.
pub proof fn lemma_split_coord(n: int)
    requires
        i32::MIN <= n <= i32::MAX,
    ensures
        global_coord(chunk_coord(n), local_coord(n)) == n,
        CHUNK_COORD_MIN <= chunk_coord(n) <= CHUNK_COORD_MAX,
        0 <= local_coord(n) < 16,
{
    lemma_fundamental_div_mod(n, 16);
    lemma_div_is_ordered(i32::MIN as int, n, 16);
    lemma_div_is_ordered(n, i32::MAX as int, 16);
}

/// Round trip of the full coordinate mapping: composing what decomposition
/// yields gives back the original global coordinates, and each local
/// coordinate is in `[0, 16)`.
pub proof fn lemma_coord_round_trip(x: int, y: int, z: int)
    requires
        i32::MIN <= x <= i32::MAX,
        i32::MIN <= y <= i32::MAX,
        i32::MIN <= z <= i32::MAX,
    ensures
        global_coord(chunk_coord(x), local_coord(x)) == x,
        global_coord(chunk_coord(y), local_coord(y)) == y,
        global_coord(chunk_coord(z), local_coord(z)) == z,
        0 <= local_coord(x) < 16,
        0 <= local_coord(y) < 16,
        0 <= local_coord(z) < 16,
{
    lemma_split_coord(x);
    lemma_split_coord(y);
    lemma_split_coord(z);
}

/// Splits one axis of a global coordinate into chunk coordinate and local
/// offset.
pub fn split_coord(n: i32) -> (r: (i32, u32))
    ensures
        r.0 == chunk_coord(n as int),
        r.1 == local_coord(n as int),
        CHUNK_COORD_MIN <= r.0 <= CHUNK_COORD_MAX,
        r.1 < 16,
{
    proof {
        lemma_split_coord(n as int);
    }
    let c = match n.checked_div_euclid(16) {
        Some(v) => v,
        None => 0,  // unreachable: the quotient always fits
    };
    let b = match n.checked_rem_euclid(16) {
        Some(v) => v,
        None => 0,  // unreachable: the divisor is nonzero
    };
    (c, b as u32)
}

/// The flat cell index and the local coordinates are inverse to each other.
pub proof fn lemma_cell_index(bx: int, by: int, bz: int)
    requires
        0 <= bx < 16,
        0 <= by < 16,
        0 <= bz < 16,
    ensures
        0 <= block_index(bx, by, bz) < 4096,
        cell_x(block_index(bx, by, bz)) == bx,
        cell_y(block_index(bx, by, bz)) == by,
        cell_z(block_index(bx, by, bz)) == bz,
{
    let i = block_index(bx, by, bz);
    assert(cell_x(i) == bx) by (nonlinear_arith)
        requires
            0 <= bx < 16,
            0 <= by < 16,
            0 <= bz < 16,
            i == 256 * by + 16 * bz + bx,
    ;
    assert(cell_y(i) == by) by (nonlinear_arith)
        requires
            0 <= bx < 16,
            0 <= by < 16,
            0 <= bz < 16,
            i == 256 * by + 16 * bz + bx,
    ;
    assert(cell_z(i) == bz) by (nonlinear_arith)
        requires
            0 <= bx < 16,
            0 <= by < 16,
            0 <= bz < 16,
            i == 256 * by + 16 * bz + bx,
    ;
}

} // verus!
