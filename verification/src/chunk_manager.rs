//! The chunk manager: the sparse map of all loaded chunks.
//!
//! It owns every loaded chunk, keyed by signed chunk coordinates, and
//! exposes the global block interface: reads and writes address blocks by
//! global signed coordinates and are routed to the owning chunk through the
//! coordinate mapper. A missing key means "not loaded", which is distinct
//! from a loaded all-`Air` chunk: reads of unloaded chunks yield `None` and
//! writes to them are silent no-ops.
//!
//! The map is a compact association vector rather than a hash table, so that
//! every operation on it, including iteration during the rebuild pass, is
//! verified against the map view [`ChunkManager::view`].

use vstd::prelude::*;
use crate::block::{BlockID, is_transparent_spec};
use crate::chunk::{Chunk, ChunkView, NeighbourSet, chunk_wf, chunk_set_block, full_chunk};
use crate::mesh::{Sides, chunk_mesh, build_chunk_mesh};
use crate::block_texture_sides::UvAtlas;
use crate::coords::{
    chunk_coord, local_coord, global_coord, block_index, split_coord, lemma_split_coord,
    lemma_cell_index, cell_x, cell_y, cell_z, CHUNK_COORD_MIN, CHUNK_COORD_MAX,
};

verus! {

/// The mathematical view of a chunk key.
pub open spec fn key_view(k: (i32, i32, i32)) -> (int, int, int) {
    (k.0 as int, k.1 as int, k.2 as int)
}

/// A chunk coordinate the mapper can produce; composing it with any local
/// offset stays in `i32` range.
pub open spec fn key_in_range(c: (int, int, int)) -> bool {
    &&& CHUNK_COORD_MIN <= c.0 <= CHUNK_COORD_MAX
    &&& CHUNK_COORD_MIN <= c.1 <= CHUNK_COORD_MAX
    &&& CHUNK_COORD_MIN <= c.2 <= CHUNK_COORD_MAX
}

/// A chunk coordinate the manager accepts as a key: strictly inside the
/// mapper's range, so that the global coordinates of its blocks and of all
/// their face neighbours stay in `i32` range. Writes addressed to the two
/// extreme chunk layers per axis fall outside every loaded chunk and are
/// silently ignored, like any write to an unloaded chunk.
pub open spec fn loadable_key(c: (int, int, int)) -> bool {
    &&& CHUNK_COORD_MIN < c.0 < CHUNK_COORD_MAX
    &&& CHUNK_COORD_MIN < c.1 < CHUNK_COORD_MAX
    &&& CHUNK_COORD_MIN < c.2 < CHUNK_COORD_MAX
}

/// A reachable chunk never records dirty neighbours without being dirty
/// itself: block writes set both together and the rebuild pass clears both
/// together.
pub open spec fn dirty_link(c: ChunkView) -> bool {
    c.dirty_neighbours != NeighbourSet::spec_empty() ==> c.dirty
}

/// The map denoted by an association vector of chunks, later entries
/// overriding earlier ones (the manager keeps keys unique, so no override
/// ever happens).
pub open spec fn entries_map(s: Seq<((i32, i32, i32), Chunk)>) -> Map<(int, int, int), ChunkView>
    decreases s.len(),
{
    if s.len() == 0 {
        Map::empty()
    } else {
        entries_map(s.drop_last()).insert(key_view(s.last().0), s.last().1@)
    }
}

/// No two entries share a key.
pub open spec fn unique_keys(s: Seq<((i32, i32, i32), Chunk)>) -> bool {
    forall|j: int, k: int|
        0 <= j < k < s.len() ==> key_view(s[j].0) != key_view(s[k].0)
}

/// A key is in the denoted map exactly when some entry holds it.
proof fn lemma_entries_map_domain(s: Seq<((i32, i32, i32), Chunk)>, c: (int, int, int))
    ensures
        entries_map(s).contains_key(c) <==> exists|j: int|
            0 <= j < s.len() && key_view(#[trigger] s[j].0) == c,
    decreases s.len(),
{
    if s.len() > 0 {
        let t = s.drop_last();
        lemma_entries_map_domain(t, c);
        assert(forall|j: int| 0 <= j < s.len() - 1 ==> #[trigger] t[j] == s[j]);
        if entries_map(s).contains_key(c) {
            if key_view(s.last().0) == c {
                assert(key_view(s[s.len() - 1].0) == c);
            } else {
                let j = choose|j: int| 0 <= j < t.len() && key_view(#[trigger] t[j].0) == c;
                assert(key_view(s[j].0) == c);
            }
        }
        if exists|j: int| 0 <= j < s.len() && key_view(#[trigger] s[j].0) == c {
            let j = choose|j: int| 0 <= j < s.len() && key_view(#[trigger] s[j].0) == c;
            if j < s.len() - 1 {
                assert(key_view(t[j].0) == c);
            } else {
                assert(key_view(s.last().0) == c);
            }
        }
    }
}

/// With unique keys, the denoted map sends each entry's key to that entry's
/// chunk.
proof fn lemma_entries_map_index(s: Seq<((i32, i32, i32), Chunk)>, j: int)
    requires
        unique_keys(s),
        0 <= j < s.len(),
    ensures
        entries_map(s).contains_key(key_view(s[j].0)),
        entries_map(s)[key_view(s[j].0)] == s[j].1@,
    decreases s.len(),
{
    if j == s.len() - 1 {
        assert(s.last() == s[j]);
    } else {
        assert(forall|k: int| 0 <= k < s.len() - 1 ==> #[trigger] s.drop_last()[k] == s[k]);
        lemma_entries_map_index(s.drop_last(), j);
        assert(key_view(s[j].0) != key_view(s.last().0));
    }
}

/// Replacing the entry at `j` by one with the same key updates the denoted
/// map at that key alone.
proof fn lemma_entries_map_update(
    s: Seq<((i32, i32, i32), Chunk)>,
    j: int,
    e: ((i32, i32, i32), Chunk),
)
    requires
        unique_keys(s),
        0 <= j < s.len(),
        key_view(e.0) == key_view(s[j].0),
    ensures
        entries_map(s.update(j, e)) == entries_map(s).insert(key_view(e.0), e.1@),
    decreases s.len(),
{
    let t = s.update(j, e);
    if j == s.len() - 1 {
        assert(t.drop_last() =~= s.drop_last());
        assert(t.last() == e);
        assert(entries_map(t) =~= entries_map(s).insert(key_view(e.0), e.1@));
    } else {
        assert(t.drop_last() =~= s.drop_last().update(j, e));
        assert(t.last() == s.last());
        assert(forall|k: int| 0 <= k < s.len() - 1 ==> #[trigger] s.drop_last()[k] == s[k]);
        lemma_entries_map_update(s.drop_last(), j, e);
        assert(key_view(e.0) != key_view(s.last().0));
        assert(entries_map(t) =~= entries_map(s).insert(key_view(e.0), e.1@));
    }
}

/// Appending an entry inserts its key into the denoted map.
proof fn lemma_entries_map_push(s: Seq<((i32, i32, i32), Chunk)>, e: ((i32, i32, i32), Chunk))
    ensures
        entries_map(s.push(e)) == entries_map(s).insert(key_view(e.0), e.1@),
{
    assert(s.push(e).drop_last() =~= s);
    assert(s.push(e).last() == e);
}

/// The owning chunk key of a global block coordinate.
pub open spec fn chunk_key(x: int, y: int, z: int) -> (int, int, int) {
    (chunk_coord(x), chunk_coord(y), chunk_coord(z))
}

/// The block at global `(x, y, z)`: `None` when the owning chunk is not
/// loaded, the stored block (by default `Air`) otherwise.
pub open spec fn block_at(m: Map<(int, int, int), ChunkView>, x: int, y: int, z: int) -> Option<
    BlockID,
> {
    if m.contains_key(chunk_key(x, y, z)) {
        Some(
            m[chunk_key(x, y, z)].blocks[block_index(
                local_coord(x),
                local_coord(y),
                local_coord(z),
            )],
        )
    } else {
        None
    }
}

/// The world after writing `b` at global `(x, y, z)`: unchanged when the
/// owning chunk is not loaded, otherwise that chunk takes the write (see
/// [`chunk_set_block`]) and every other chunk is untouched.
pub open spec fn set_block_spec(
    m: Map<(int, int, int), ChunkView>,
    x: int,
    y: int,
    z: int,
    b: BlockID,
) -> Map<(int, int, int), ChunkView> {
    let c = chunk_key(x, y, z);
    if m.contains_key(c) {
        m.insert(c, chunk_set_block(m[c], local_coord(x), local_coord(y), local_coord(z), b))
    } else {
        m
    }
}

/// Owns the sparse map from chunk coordinates to loaded chunks.
pub struct ChunkManager {
    pub loaded_chunks: Vec<((i32, i32, i32), Chunk)>,
}

impl View for ChunkManager {
    type V = Map<(int, int, int), ChunkView>;

    open spec fn view(&self) -> Map<(int, int, int), ChunkView> {
        entries_map(self.loaded_chunks@)
    }
}

impl ChunkManager {
    /// Well-formedness of the chunk store: unique keys, keys in composable
    /// range, fully populated chunks, and the dirty link (see
    /// [`dirty_link`]).
    pub open spec fn inv(&self) -> bool {
        &&& unique_keys(self.loaded_chunks@)
        &&& forall|j: int|
            0 <= j < self.loaded_chunks@.len() ==> loadable_key(
                key_view(#[trigger] self.loaded_chunks@[j].0),
            )
        &&& forall|j: int|
            0 <= j < self.loaded_chunks@.len() ==> chunk_wf(#[trigger] self.loaded_chunks@[j].1@)
        &&& forall|j: int|
            0 <= j < self.loaded_chunks@.len() ==> dirty_link(
                #[trigger] self.loaded_chunks@[j].1@,
            )
    }

    /// Every loaded chunk, seen through the map view, is well formed, has a
    /// key in range, and obeys the dirty link.
    pub proof fn lemma_inv_view(&self)
        requires
            self.inv(),
        ensures
            forall|c: (int, int, int)|
                #[trigger] self@.contains_key(c) ==> loadable_key(c) && chunk_wf(self@[c])
                    && dirty_link(self@[c]),
    {
        assert forall|c: (int, int, int)| #[trigger] self@.contains_key(c) implies loadable_key(c)
            && chunk_wf(self@[c]) && dirty_link(self@[c]) by {
            lemma_entries_map_domain(self.loaded_chunks@, c);
            let j = choose|j: int|
                0 <= j < self.loaded_chunks@.len() && key_view(
                    #[trigger] self.loaded_chunks@[j].0,
                ) == c;
            lemma_entries_map_index(self.loaded_chunks@, j);
        }
    }

    /// A manager with no chunk loaded.
    pub fn new() -> (r: ChunkManager)
        ensures
            r.inv(),
            r@ == Map::<(int, int, int), ChunkView>::empty(),
    {
        ChunkManager { loaded_chunks: Vec::new() }
    }

    /// The index of the entry holding `key`, if the chunk is loaded.
    fn find_chunk(&self, key: (i32, i32, i32)) -> (r: Option<usize>)
        requires
            self.inv(),
        ensures
            match r {
                Some(j) => {
                    &&& j < self.loaded_chunks@.len()
                    &&& self.loaded_chunks@[j as int].0 == key
                    &&& self@.contains_key(key_view(key))
                    &&& self@[key_view(key)] == self.loaded_chunks@[j as int].1@
                },
                None => !self@.contains_key(key_view(key)),
            },
    {
        let n = self.loaded_chunks.len();
        let mut j: usize = 0;
        while j < n
            invariant
                self.inv(),
                n == self.loaded_chunks@.len(),
                j <= n,
                forall|k: int| 0 <= k < j ==> key_view(#[trigger] self.loaded_chunks@[k].0)
                    != key_view(key),
            decreases n - j,
        {
            let k = self.loaded_chunks[j].0;
            if k.0 == key.0 && k.1 == key.1 && k.2 == key.2 {
                proof {
                    lemma_entries_map_index(self.loaded_chunks@, j as int);
                }
                return Some(j);
            }
            j = j + 1;
        }
        proof {
            lemma_entries_map_domain(self.loaded_chunks@, key_view(key));
        }
        None
    }

    /// Whether the chunk at `coords` is loaded.
    pub fn is_loaded(&self, coords: (i32, i32, i32)) -> (r: bool)
        requires
            self.inv(),
        ensures
            r == self@.contains_key(key_view(coords)),
    {
        self.find_chunk(coords).is_some()
    }

    /// Inserts (or replaces) the chunk at `coords`. Chunks enter the map
    /// with no dirty neighbours recorded; writes add them later.
    pub fn load_chunk(&mut self, coords: (i32, i32, i32), chunk: Chunk)
        requires
            old(self).inv(),
            chunk.wf(),
            chunk@.dirty_neighbours == NeighbourSet::spec_empty(),
            loadable_key(key_view(coords)),
        ensures
            final(self).inv(),
            final(self)@ == old(self)@.insert(key_view(coords), chunk@),
    {
        match self.find_chunk(coords) {
            Some(j) => {
                proof {
                    lemma_entries_map_update(self.loaded_chunks@, j as int, (coords, chunk));
                }
                self.loaded_chunks[j] = (coords, chunk);
                proof {
                    assert forall|a: int, b: int|
                        0 <= a < b < self.loaded_chunks@.len() implies key_view(
                        self.loaded_chunks@[a].0,
                    ) != key_view(self.loaded_chunks@[b].0) by {
                        assert(old(self).loaded_chunks@[a].0 == self.loaded_chunks@[a].0 || a
                            == j as int);
                    }
                }
            },
            None => {
                proof {
                    lemma_entries_map_push(self.loaded_chunks@, (coords, chunk));
                    lemma_entries_map_domain(self.loaded_chunks@, key_view(coords));
                }
                self.loaded_chunks.push((coords, chunk));
            },
        }
    }

    /// Decomposes a global block coordinate into the owning chunk coordinate
    /// and the local block coordinate, per axis; local coordinates are
    /// always in `[0, 16)`, whatever the sign of the input.
    pub fn get_chunk_and_block_coords(x: i32, y: i32, z: i32) -> (r: (
        i32,
        i32,
        i32,
        u32,
        u32,
        u32,
    ))
        ensures
            r.0 == chunk_coord(x as int),
            r.1 == chunk_coord(y as int),
            r.2 == chunk_coord(z as int),
            r.3 == local_coord(x as int),
            r.4 == local_coord(y as int),
            r.5 == local_coord(z as int),
            key_in_range((r.0 as int, r.1 as int, r.2 as int)),
            r.3 < 16 && r.4 < 16 && r.5 < 16,
    {
        let (cx, bx) = split_coord(x);
        let (cy, by) = split_coord(y);
        let (cz, bz) = split_coord(z);
        (cx, cy, cz, bx, by, bz)
    }

    /// Recomposes chunk and local block coordinates into the global block
    /// coordinate: the exact inverse of [`Self::get_chunk_and_block_coords`].
    pub fn get_global_coords(coords: (i32, i32, i32, u32, u32, u32)) -> (r: (i32, i32, i32))
        requires
            key_in_range((coords.0 as int, coords.1 as int, coords.2 as int)),
            coords.3 < 16,
            coords.4 < 16,
            coords.5 < 16,
        ensures
            r.0 == global_coord(coords.0 as int, coords.3 as int),
            r.1 == global_coord(coords.1 as int, coords.4 as int),
            r.2 == global_coord(coords.2 as int, coords.5 as int),
    {
        let x = 16 * coords.0 + coords.3 as i32;
        let y = 16 * coords.1 + coords.4 as i32;
        let z = 16 * coords.2 + coords.5 as i32;
        (x, y, z)
    }

    /// Reads the block at global `(x, y, z)`: `None` when the owning chunk
    /// is not loaded, otherwise the stored block (`Air` if never written).
    pub fn get_block(&self, x: i32, y: i32, z: i32) -> (r: Option<BlockID>)
        requires
            self.inv(),
        ensures
            r == block_at(self@, x as int, y as int, z as int),
    {
        let (cx, cy, cz, bx, by, bz) = ChunkManager::get_chunk_and_block_coords(x, y, z);
        match self.find_chunk((cx, cy, cz)) {
            Some(j) => {
                proof {
                    self.lemma_inv_view();
                }
                Some(self.loaded_chunks[j].1.get_block(bx, by, bz))
            },
            None => None,
        }
    }

    /// Writes `b` at global `(x, y, z)`. A write to an unloaded chunk is a
    /// silent no-op; otherwise the owning chunk stores the block, becomes
    /// dirty, and records every crossed chunk boundary in its
    /// dirty-neighbour set.
    pub fn set_block(&mut self, x: i32, y: i32, z: i32, b: BlockID)
        requires
            old(self).inv(),
        ensures
            final(self).inv(),
            final(self)@ == set_block_spec(old(self)@, x as int, y as int, z as int, b),
    {
        let (cx, cy, cz, bx, by, bz) = ChunkManager::get_chunk_and_block_coords(x, y, z);
        match self.find_chunk((cx, cy, cz)) {
            Some(j) => {
                proof {
                    self.lemma_inv_view();
                }
                let pair = &mut self.loaded_chunks[j];
                pair.1.set_block(bx, by, bz, b);
                proof {
                    lemma_entries_map_update(
                        old(self).loaded_chunks@,
                        j as int,
                        self.loaded_chunks@[j as int],
                    );
                    assert forall|a: int, b2: int|
                        0 <= a < b2 < self.loaded_chunks@.len() implies key_view(
                        self.loaded_chunks@[a].0,
                    ) != key_view(self.loaded_chunks@[b2].0) by {
                        assert(old(self).loaded_chunks@[a].0 == self.loaded_chunks@[a].0);
                        assert(old(self).loaded_chunks@[b2].0 == self.loaded_chunks@[b2].0);
                    }
                }
            },
            None => {},
        }
    }

    /// Reads the block at global `(x, y, z)` (see [`Self::get_block`]).
    pub fn get(&self, x: i32, y: i32, z: i32) -> (r: Option<BlockID>)
        requires
            self.inv(),
        ensures
            r == block_at(self@, x as int, y as int, z as int),
    {
        self.get_block(x, y, z)
    }

    /// Writes the block at global `(x, y, z)` (see [`Self::set_block`]).
    pub fn set(&mut self, x: i32, y: i32, z: i32, b: BlockID)
        requires
            old(self).inv(),
        ensures
            final(self).inv(),
            final(self)@ == set_block_spec(old(self)@, x as int, y as int, z as int, b),
    {
        self.set_block(x, y, z, b)
    }

    /// Whether a loaded, non-transparent block occupies global `(x, y, z)`.
    fn is_opaque(&self, x: i32, y: i32, z: i32) -> (r: bool)
        requires
            self.inv(),
        ensures
            r == opaque_at(self@, x as int, y as int, z as int),
    {
        match self.get_block(x, y, z) {
            Some(b) => !b.is_transparent(),
            None => false,
        }
    }

    /// The six face-visibility bits of the block at global `(x, y, z)`, in
    /// the face order (right, left, top, bottom, front, back). A face is
    /// visible exactly when its neighbouring block is not a loaded opaque
    /// block, so faces against `Air`, against transparent blocks and against
    /// unloaded chunks all render.
    pub fn get_active_sides_of_block(&self, x: i32, y: i32, z: i32) -> (r: Sides)
        requires
            self.inv(),
            i32::MIN < x < i32::MAX,
            i32::MIN < y < i32::MAX,
            i32::MIN < z < i32::MAX,
        ensures
            r == active_sides_spec(self@, x as int, y as int, z as int),
    {
        let right = !self.is_opaque(x + 1, y, z);
        let left = !self.is_opaque(x - 1, y, z);
        let top = !self.is_opaque(x, y + 1, z);
        let bottom = !self.is_opaque(x, y - 1, z);
        let front = !self.is_opaque(x, y, z + 1);
        let back = !self.is_opaque(x, y, z - 1);
        (right, left, top, bottom, front, back)
    }

    /// Loads the 3x3x3 block of chunks around the origin with a solid
    /// checkerboard: chunks with an even coordinate sum are all
    /// `Cobblestone`, the rest all `Dirt`. Already loaded chunks in that
    /// range are replaced; everything else is untouched.
    pub fn preload_some_chunks(&mut self)
        requires
            old(self).inv(),
        ensures
            final(self).inv(),
            forall|c: (int, int, int)|
                #[trigger] final(self)@.contains_key(c) <==> (old(self)@.contains_key(c)
                    || preload_key(c)),
            forall|c: (int, int, int)|
                preload_key(c) ==> full_chunk(#[trigger] final(self)@[c], preload_block(c)),
            forall|c: (int, int, int)|
                old(self)@.contains_key(c) && !preload_key(c) ==> #[trigger] final(self)@[c]
                    == old(self)@[c],
    {
        let mut x: i32 = -1;
        let mut z: i32 = -1;
        let mut y: i32 = -1;
        let mut n: u32 = 0;
        while n < 27
            invariant
                self.inv(),
                -1 <= x <= 1,
                -1 <= z <= 1,
                -1 <= y <= 2,
                n == 9 * (y + 1) + 3 * (z + 1) + (x + 1),
                n <= 27,
                forall|c: (int, int, int)|
                    #[trigger] self@.contains_key(c) <==> (old(self)@.contains_key(c) || (
                    preload_key(c) && preload_ord(c) < n)),
                forall|c: (int, int, int)|
                    preload_key(c) && preload_ord(c) < n ==> full_chunk(
                        #[trigger] self@[c],
                        preload_block(c),
                    ),
                forall|c: (int, int, int)|
                    self@.contains_key(c) && !(preload_key(c) && preload_ord(c) < n)
                        ==> #[trigger] self@[c] == old(self)@[c],
            decreases 27 - n,
        {
            let sum = x + y + z;
            let par = match sum.checked_rem_euclid(2) {
                Some(v) => v,
                None => 0,  // unreachable: the divisor is nonzero
            };
            let b = if par == 0 {
                BlockID::Cobblestone
            } else {
                BlockID::Dirt
            };
            proof {
                assert(b == preload_block((x as int, y as int, z as int)));
            }
            let chunk = Chunk::full_of_block(b);
            self.load_chunk((x, y, z), chunk);
            n = n + 1;
            x = x + 1;
            if x > 1 {
                x = -1;
                z = z + 1;
                if z > 1 {
                    z = -1;
                    y = y + 1;
                }
            }
        }
    }
}

/// The chunk coordinates that [`ChunkManager::preload_some_chunks`] fills.
pub open spec fn preload_key(c: (int, int, int)) -> bool {
    &&& -1 <= c.0 <= 1
    &&& -1 <= c.1 <= 1
    &&& -1 <= c.2 <= 1
}

/// The position of a preloaded chunk in the fill order (y-major, then z,
/// then x).
pub open spec fn preload_ord(c: (int, int, int)) -> int {
    9 * (c.1 + 1) + 3 * (c.2 + 1) + (c.0 + 1)
}

/// The checkerboard block of a preloaded chunk: `Cobblestone` where the
/// coordinate sum is even, `Dirt` where it is odd.
pub open spec fn preload_block(c: (int, int, int)) -> BlockID {
    if (c.0 + c.1 + c.2) % 2 == 0 {
        BlockID::Cobblestone
    } else {
        BlockID::Dirt
    }
}

/// Whether a loaded, non-transparent block occupies global `(x, y, z)`:
/// the occlusion test of face visibility.
pub open spec fn opaque_at(m: Map<(int, int, int), ChunkView>, x: int, y: int, z: int) -> bool {
    match block_at(m, x, y, z) {
        Some(b) => !is_transparent_spec(b),
        None => false,
    }
}

/// The face-visibility mask of the block at global `(x, y, z)`: each of the
/// six faces, in the order (right, left, top, bottom, front, back), renders
/// exactly when the neighbour in that direction is not a loaded opaque
/// block.
pub open spec fn active_sides_spec(m: Map<(int, int, int), ChunkView>, x: int, y: int, z: int) -> Sides {
    (
        !opaque_at(m, x + 1, y, z),
        !opaque_at(m, x - 1, y, z),
        !opaque_at(m, x, y + 1, z),
        !opaque_at(m, x, y - 1, z),
        !opaque_at(m, x, y, z + 1),
        !opaque_at(m, x, y, z - 1),
    )
}

/// What one write changes, seen through `block_at`: the written coordinate
/// reads back as `b` (when its chunk is loaded; otherwise nothing changes),
/// every other coordinate reads as before, no chunk is loaded or unloaded,
/// and no chunk's vertex data moves. A chunk that was dirty stays dirty.
pub proof fn lemma_set_block_effect(
    m: Map<(int, int, int), ChunkView>,
    x: int,
    y: int,
    z: int,
    b: BlockID,
)
    requires
        m.contains_key(chunk_key(x, y, z)) ==> chunk_wf(m[chunk_key(x, y, z)]),
        i32::MIN <= x <= i32::MAX,
        i32::MIN <= y <= i32::MAX,
        i32::MIN <= z <= i32::MAX,
    ensures
        forall|c: (int, int, int)|
            #[trigger] set_block_spec(m, x, y, z, b).contains_key(c) == m.contains_key(c),
        forall|gx: int, gy: int, gz: int|
            (i32::MIN <= gx <= i32::MAX && i32::MIN <= gy <= i32::MAX && i32::MIN <= gz
                <= i32::MAX) ==> #[trigger] block_at(set_block_spec(m, x, y, z, b), gx, gy, gz)
                == (if gx == x && gy == y && gz == z && m.contains_key(chunk_key(x, y, z)) {
                Some(b)
            } else {
                block_at(m, gx, gy, gz)
            }),
        forall|c: (int, int, int)|
            m.contains_key(c) ==> {
                let after = #[trigger] set_block_spec(m, x, y, z, b)[c];
                &&& after.mesh == m[c].mesh
                &&& after.vertices_drawn == m[c].vertices_drawn
                &&& after.blocks.len() == m[c].blocks.len()
                &&& (m[c].dirty ==> after.dirty)
            },
{
    let ck = chunk_key(x, y, z);
    if m.contains_key(ck) {
        lemma_split_coord(x);
        lemma_split_coord(y);
        lemma_split_coord(z);
        lemma_cell_index(local_coord(x), local_coord(y), local_coord(z));
        assert forall|gx: int, gy: int, gz: int|
            (i32::MIN <= gx <= i32::MAX && i32::MIN <= gy <= i32::MAX && i32::MIN <= gz
                <= i32::MAX) implies #[trigger] block_at(set_block_spec(m, x, y, z, b), gx, gy, gz)
            == (if gx == x && gy == y && gz == z && m.contains_key(ck) {
            Some(b)
        } else {
            block_at(m, gx, gy, gz)
        }) by {
            lemma_split_coord(gx);
            lemma_split_coord(gy);
            lemma_split_coord(gz);
            lemma_cell_index(local_coord(gx), local_coord(gy), local_coord(gz));
            if chunk_key(gx, gy, gz) == ck && !(gx == x && gy == y && gz == z) {
                // Same chunk, different cell: the flat indices differ because
                // (chunk, local) pairs compose injectively back to globals.
                assert(block_index(local_coord(gx), local_coord(gy), local_coord(gz))
                    != block_index(local_coord(x), local_coord(y), local_coord(z)));
            }
        }
    }
}

/// Whether some loaded chunk has marked `c` in its dirty-neighbour set:
/// `c` must then be remeshed even if it is not dirty itself (and skipped if
/// it is not loaded).
pub open spec fn neighbour_marks(m: Map<(int, int, int), ChunkView>, c: (int, int, int)) -> bool {
    exists|d: (int, int, int)|
        #[trigger] m.contains_key(d) && m[d].dirty_neighbours.spec_contains(
            (c.0 - d.0, c.1 - d.1, c.2 - d.2),
        )
}

/// The dirty set of the rebuild pass: every loaded dirty chunk, plus every
/// chunk coordinate referenced by any loaded chunk's dirty-neighbour set
/// (whether or not that coordinate is loaded or dirty itself).
pub open spec fn dirty_set_contains(m: Map<(int, int, int), ChunkView>, c: (int, int, int)) -> bool {
    ||| (m.contains_key(c) && m[c].dirty)
    ||| neighbour_marks(m, c)
}

/// Whether the coordinate list holds `c`.
pub open spec fn coords_contains(s: Seq<(i32, i32, i32)>, c: (int, int, int)) -> bool {
    exists|j: int| 0 <= j < s.len() && key_view(#[trigger] s[j]) == c
}

/// The dirty-set contributions of one chunk entry: its own key if it is
/// dirty, plus its recorded neighbour coordinates.
pub open spec fn entry_contrib(e: ((i32, i32, i32), Chunk), c: (int, int, int)) -> bool {
    ||| (e.1@.dirty && c == key_view(e.0))
    ||| e.1@.dirty_neighbours.spec_contains(
        (c.0 - e.0.0 as int, c.1 - e.0.1 as int, c.2 - e.0.2 as int),
    )
}

/// Whether one of the first `j` entries contributes `c` to the dirty set.
pub open spec fn contrib_prefix(s: Seq<((i32, i32, i32), Chunk)>, j: int, c: (int, int, int)) -> bool {
    exists|k: int| 0 <= k < j && entry_contrib(#[trigger] s[k], c)
}

/// Extending the contribution prefix by one entry adds exactly that entry's
/// contributions.
proof fn lemma_contrib_prefix_step(s: Seq<((i32, i32, i32), Chunk)>, j: int)
    requires
        0 <= j < s.len(),
    ensures
        forall|c: (int, int, int)|
            #[trigger] contrib_prefix(s, j + 1, c) <==> (contrib_prefix(s, j, c) || entry_contrib(
                s[j],
                c,
            )),
{
    assert forall|c: (int, int, int)|
        #[trigger] contrib_prefix(s, j + 1, c) <==> (contrib_prefix(s, j, c) || entry_contrib(
            s[j],
            c,
        )) by {
        if contrib_prefix(s, j + 1, c) {
            let k = choose|k: int| 0 <= k < j + 1 && entry_contrib(#[trigger] s[k], c);
            if k < j {
                assert(contrib_prefix(s, j, c));
            } else {
                assert(entry_contrib(s[j], c));
            }
        }
        if contrib_prefix(s, j, c) {
            let k = choose|k: int| 0 <= k < j && entry_contrib(#[trigger] s[k], c);
            assert(entry_contrib(s[k], c) && 0 <= k < j + 1);
        }
        if entry_contrib(s[j], c) {
            assert(entry_contrib(s[j], c) && 0 <= j < j + 1);
        }
    }
}

/// Over the whole entry list, the contributions are exactly the dirty set
/// of the denoted map.
proof fn lemma_contrib_full(s: Seq<((i32, i32, i32), Chunk)>, c: (int, int, int))
    requires
        unique_keys(s),
    ensures
        contrib_prefix(s, s.len() as int, c) <==> dirty_set_contains(entries_map(s), c),
{
    let m = entries_map(s);
    if contrib_prefix(s, s.len() as int, c) {
        let k = choose|k: int| 0 <= k < s.len() && entry_contrib(#[trigger] s[k], c);
        lemma_entries_map_index(s, k);
        let d = key_view(s[k].0);
        if s[k].1@.dirty && c == d {
            assert(m.contains_key(c) && m[c].dirty);
        } else {
            assert(m.contains_key(d) && m[d].dirty_neighbours.spec_contains(
                (c.0 - d.0, c.1 - d.1, c.2 - d.2),
            ));
            assert(neighbour_marks(m, c));
        }
    }
    if dirty_set_contains(m, c) {
        if m.contains_key(c) && m[c].dirty {
            lemma_entries_map_domain(s, c);
            let j = choose|j: int| 0 <= j < s.len() && key_view(#[trigger] s[j].0) == c;
            lemma_entries_map_index(s, j);
            assert(entry_contrib(s[j], c) && 0 <= j < s.len());
        } else {
            let d = choose|d: (int, int, int)|
                #[trigger] m.contains_key(d) && m[d].dirty_neighbours.spec_contains(
                    (c.0 - d.0, c.1 - d.1, c.2 - d.2),
                );
            lemma_entries_map_domain(s, d);
            let j = choose|j: int| 0 <= j < s.len() && key_view(#[trigger] s[j].0) == d;
            lemma_entries_map_index(s, j);
            assert(entry_contrib(s[j], c) && 0 <= j < s.len());
        }
    }
}

impl ChunkManager {
    /// Appends `key` to the list unless it is already there.
    fn push_unique(r: &mut Vec<(i32, i32, i32)>, key: (i32, i32, i32))
        ensures
            forall|c: (int, int, int)|
                #[trigger] coords_contains(final(r)@, c) <==> (coords_contains(old(r)@, c) || c
                    == key_view(key)),
    {
        let n = r.len();
        let mut j: usize = 0;
        while j < n
            invariant
                n == r@.len(),
                j <= n,
                forall|k: int| 0 <= k < j ==> key_view(#[trigger] r@[k]) != key_view(key),
            decreases n - j,
        {
            let k = r[j];
            if k.0 == key.0 && k.1 == key.1 && k.2 == key.2 {
                proof {
                    assert forall|c: (int, int, int)|
                        #[trigger] coords_contains(r@, c) <==> (coords_contains(r@, c) || c
                            == key_view(key)) by {
                        assert(key_view(r@[j as int]) == key_view(key));
                    }
                }
                return ;
            }
            j = j + 1;
        }
        r.push(key);
        proof {
            assert forall|c: (int, int, int)|
                #[trigger] coords_contains(r@, c) <==> (coords_contains(old(r)@, c) || c
                    == key_view(key)) by {
                if coords_contains(r@, c) {
                    let k = choose|k: int| 0 <= k < r@.len() && key_view(#[trigger] r@[k]) == c;
                    if k < r@.len() - 1 {
                        assert(old(r)@[k] == r@[k]);
                        assert(coords_contains(old(r)@, c));
                    }
                }
                if coords_contains(old(r)@, c) {
                    let k = choose|k: int|
                        0 <= k < old(r)@.len() && key_view(#[trigger] old(r)@[k]) == c;
                    assert(key_view(r@[k]) == c);
                }
                if c == key_view(key) {
                    assert(key_view(r@[r@.len() - 1]) == c);
                }
            }
        }
    }

    /// Collects the dirty set: the coordinates of every loaded dirty chunk,
    /// plus every coordinate any loaded chunk has marked as a dirty
    /// neighbour.
    fn collect_dirty(&self) -> (r: Vec<(i32, i32, i32)>)
        requires
            self.inv(),
        ensures
            forall|c: (int, int, int)|
                #[trigger] coords_contains(r@, c) <==> dirty_set_contains(self@, c),
    {
        let mut r: Vec<(i32, i32, i32)> = Vec::new();
        let n = self.loaded_chunks.len();
        let mut j: usize = 0;
        while j < n
            invariant
                self.inv(),
                n == self.loaded_chunks@.len(),
                j <= n,
                forall|c: (int, int, int)|
                    #[trigger] coords_contains(r@, c) <==> contrib_prefix(
                        self.loaded_chunks@,
                        j as int,
                        c,
                    ),
            decreases n - j,
        {
            let key = self.loaded_chunks[j].0;
            let entry_dirty = self.loaded_chunks[j].1.dirty;
            let nb = self.loaded_chunks[j].1.dirty_neighbours;
            proof {
                lemma_contrib_prefix_step(self.loaded_chunks@, j as int);
            }
            if entry_dirty {
                ChunkManager::push_unique(&mut r, key);
            }
            if nb.xn {
                ChunkManager::push_unique(&mut r, (key.0 - 1, key.1, key.2));
            }
            if nb.xp {
                ChunkManager::push_unique(&mut r, (key.0 + 1, key.1, key.2));
            }
            if nb.yn {
                ChunkManager::push_unique(&mut r, (key.0, key.1 - 1, key.2));
            }
            if nb.yp {
                ChunkManager::push_unique(&mut r, (key.0, key.1 + 1, key.2));
            }
            if nb.zn {
                ChunkManager::push_unique(&mut r, (key.0, key.1, key.2 - 1));
            }
            if nb.zp {
                ChunkManager::push_unique(&mut r, (key.0, key.1, key.2 + 1));
            }
            j = j + 1;
        }
        proof {
            assert forall|c: (int, int, int)|
                #[trigger] coords_contains(r@, c) <==> dirty_set_contains(self@, c) by {
                lemma_contrib_full(self.loaded_chunks@, c);
            }
        }
        r
    }
}

/// The face-visibility mask of cell `i` of the chunk at `cc`, sampled from
/// the world `m`.
pub open spec fn cell_sides(
    m: Map<(int, int, int), ChunkView>,
    cc: (int, int, int),
    i: int,
) -> Sides {
    active_sides_spec(
        m,
        global_coord(cc.0, cell_x(i)),
        global_coord(cc.1, cell_y(i)),
        global_coord(cc.2, cell_z(i)),
    )
}

/// The visibility snapshot of the chunk at `cc`: the mask of each of its
/// 4096 cells, in the fixed cell order, all sampled from the same world
/// state.
pub open spec fn sides_snapshot(m: Map<(int, int, int), ChunkView>, cc: (int, int, int)) -> Seq<
    Sides,
> {
    Seq::new(4096, |i: int| cell_sides(m, cc, i))
}

/// The chunk at `cc` after the rebuild pass has remeshed it against the
/// world `m`: same blocks, clean dirty state, and vertex data rebuilt from
/// the visibility snapshot taken in `m`.
pub open spec fn remeshed(
    m: Map<(int, int, int), ChunkView>,
    cc: (int, int, int),
    atlas: UvAtlas,
) -> ChunkView {
    let c = m[cc];
    let mesh = chunk_mesh(c.blocks, sides_snapshot(m, cc), atlas);
    ChunkView {
        blocks: c.blocks,
        dirty: false,
        dirty_neighbours: NeighbourSet::spec_empty(),
        mesh,
        vertices_drawn: mesh.len() as int,
    }
}

/// The world after remeshing the loaded chunks among the first `j` entries
/// of the dirty-coordinate list `coords`, all against the pre-pass world
/// `m`.
pub open spec fn rebuild_prefix(
    m: Map<(int, int, int), ChunkView>,
    atlas: UvAtlas,
    coords: Seq<(i32, i32, i32)>,
    j: int,
) -> Map<(int, int, int), ChunkView> {
    Map::new(
        |c: (int, int, int)| m.contains_key(c),
        |c: (int, int, int)|
            if coords_contains(coords.take(j), c) {
                remeshed(m, c, atlas)
            } else {
                m[c]
            },
    )
}

/// The world after one full rebuild pass: every loaded chunk in the dirty
/// set is remeshed against the pre-pass world (same blocks, clean dirty
/// state, fresh vertex data); every other chunk is untouched. No chunk is
/// loaded or unloaded.
pub open spec fn rebuild_spec(m: Map<(int, int, int), ChunkView>, atlas: UvAtlas) -> Map<
    (int, int, int),
    ChunkView,
> {
    Map::new(
        |c: (int, int, int)| m.contains_key(c),
        |c: (int, int, int)|
            if dirty_set_contains(m, c) {
                remeshed(m, c, atlas)
            } else {
                m[c]
            },
    )
}

/// Taking one more coordinate extends the contained set by exactly that
/// coordinate.
proof fn lemma_coords_take_step(s: Seq<(i32, i32, i32)>, j: int)
    requires
        0 <= j < s.len(),
    ensures
        forall|c: (int, int, int)|
            #[trigger] coords_contains(s.take(j + 1), c) <==> (coords_contains(s.take(j), c) || c
                == key_view(s[j])),
{
    assert forall|c: (int, int, int)|
        #[trigger] coords_contains(s.take(j + 1), c) <==> (coords_contains(s.take(j), c) || c
            == key_view(s[j])) by {
        if coords_contains(s.take(j + 1), c) {
            let k = choose|k: int|
                0 <= k < s.take(j + 1).len() && key_view(#[trigger] s.take(j + 1)[k]) == c;
            if k < j {
                assert(key_view(s.take(j)[k]) == c);
            } else {
                assert(key_view(s[j]) == c);
            }
        }
        if coords_contains(s.take(j), c) {
            let k = choose|k: int| 0 <= k < s.take(j).len() && key_view(#[trigger] s.take(j)[k])
                == c;
            assert(key_view(s.take(j + 1)[k]) == c);
        }
        if c == key_view(s[j]) {
            assert(key_view(s.take(j + 1)[j]) == c);
        }
    }
}

impl ChunkManager {
    /// Computes the visibility snapshot of the loaded chunk at `cc`: the
    /// face-visibility mask of each of its 4096 cells, in the fixed cell
    /// order.
    fn compute_chunk_sides(&self, cc: (i32, i32, i32)) -> (r: Vec<Sides>)
        requires
            self.inv(),
            loadable_key(key_view(cc)),
        ensures
            r@.len() == 4096,
            forall|i: int| 0 <= i < 4096 ==> #[trigger] r@[i] == cell_sides(
                self@,
                key_view(cc),
                i,
            ),
    {
        let mut r: Vec<Sides> = Vec::new();
        let mut i: usize = 0;
        while i < 4096
            invariant
                self.inv(),
                loadable_key(key_view(cc)),
                i <= 4096,
                r@.len() == i,
                forall|k: int| 0 <= k < i ==> #[trigger] r@[k] == cell_sides(
                    self@,
                    key_view(cc),
                    k,
                ),
            decreases 4096 - i,
        {
            let x = (i % 16) as i32;
            let z = ((i / 16) % 16) as i32;
            let y = (i / 256) as i32;
            let gx = 16 * cc.0 + x;
            let gy = 16 * cc.1 + y;
            let gz = 16 * cc.2 + z;
            let s = self.get_active_sides_of_block(gx, gy, gz);
            r.push(s);
            i = i + 1;
        }
        r
    }

    /// The rebuild pass. Collects the dirty set (every dirty chunk plus
    /// every chunk marked as a dirty neighbour), snapshots face visibility
    /// for all of its loaded members before touching any vertex data, then
    /// rebuilds each one's mesh from its snapshot, stores the vertex count,
    /// and clears its dirty flag and dirty-neighbour set. Chunks outside
    /// the dirty set, and the blocks of every chunk, are untouched.
    pub fn rebuild_dirty_chunks(&mut self, atlas: &UvAtlas)
        requires
            old(self).inv(),
        ensures
            final(self).inv(),
            final(self)@ == rebuild_spec(old(self)@, *atlas),
    {
        let ghost m0 = self@;
        let dirty = self.collect_dirty();

        // Visibility snapshot of every loaded chunk in the dirty set, all
        // taken from the same pre-pass state.
        let mut snaps: Vec<Option<Vec<Sides>>> = Vec::new();
        let mut j: usize = 0;
        while j < dirty.len()
            invariant
                self.inv(),
                self@ == m0,
                snaps@.len() == j,
                j <= dirty@.len(),
                forall|k: int| 0 <= k < j ==> snap_ok(#[trigger] snaps@[k], dirty@[k], m0),
            decreases dirty@.len() - j,
        {
            let cc = dirty[j];
            if self.is_loaded(cc) {
                proof {
                    self.lemma_inv_view();
                }
                snaps.push(Some(self.compute_chunk_sides(cc)));
            } else {
                snaps.push(None);
            }
            j = j + 1;
        }

        // Rebuild each loaded chunk of the dirty set from its snapshot.
        let mut j: usize = 0;
        while j < dirty.len()
            invariant
                self.inv(),
                snaps@.len() == dirty@.len(),
                j <= dirty@.len(),
                forall|k: int| 0 <= k < dirty@.len() ==> snap_ok(
                    #[trigger] snaps@[k],
                    dirty@[k],
                    m0,
                ),
                self@ == rebuild_prefix(m0, *atlas, dirty@, j as int),
            decreases dirty@.len() - j,
        {
            let cc = dirty[j];
            proof {
                lemma_coords_take_step(dirty@, j as int);
            }
            let is_snap = match &snaps[j] {
                Some(_) => true,
                None => false,
            };
            if is_snap {
                proof {
                    assert(m0.contains_key(key_view(cc)));
                    assert(self@.contains_key(key_view(cc)));
                }
                let kopt = self.find_chunk(cc);
                let k = match kopt {
                    Some(k) => k,
                    None => 0,  // unreachable: the chunk is loaded
                };
                let ghost prev = self@;
                let ghost prev_entries = self.loaded_chunks@;
                proof {
                    self.lemma_inv_view();
                    assert(prev[key_view(cc)].blocks == m0[key_view(cc)].blocks);
                }
                let mesh = match &snaps[j] {
                    Some(sv) => build_chunk_mesh(&self.loaded_chunks[k].1.blocks, sv, atlas),
                    None => Vec::new(),  // unreachable: the snapshot exists
                };
                let ml = mesh.len();
                let pair = &mut self.loaded_chunks[k];
                pair.1.mesh = mesh;
                pair.1.vertices_drawn = ml as u32;
                pair.1.dirty = false;
                pair.1.dirty_neighbours = NeighbourSet::empty();
                proof {
                    lemma_entries_map_update(
                        prev_entries,
                        k as int,
                        self.loaded_chunks@[k as int],
                    );
                    assert forall|a: int, b2: int|
                        0 <= a < b2 < self.loaded_chunks@.len() implies key_view(
                        self.loaded_chunks@[a].0,
                    ) != key_view(self.loaded_chunks@[b2].0) by {
                        assert(prev_entries[a].0 == self.loaded_chunks@[a].0);
                        assert(prev_entries[b2].0 == self.loaded_chunks@[b2].0);
                    }
                    let ccv = key_view(cc);
                    match snaps@[j as int] {
                        Some(sv) => {
                            assert(sv@ =~= sides_snapshot(m0, ccv));
                        },
                        None => {},
                    }
                    assert(self@[ccv] =~= remeshed(m0, ccv, *atlas));
                    assert(self@ =~= rebuild_prefix(m0, *atlas, dirty@, j + 1 as int));
                }
            } else {
                proof {
                    assert(!m0.contains_key(key_view(cc)));
                    assert(self@ =~= rebuild_prefix(m0, *atlas, dirty@, j + 1 as int));
                }
            }
            j = j + 1;
        }
        proof {
            assert(dirty@.take(dirty@.len() as int) =~= dirty@);
            assert(self@ =~= rebuild_spec(m0, *atlas));
        }
    }
}

/// One slot of the visibility-snapshot list: `Some` with the 4096 cell
/// masks of the chunk at `key` (sampled from `m`) when that chunk is
/// loaded, `None` when it is not.
pub open spec fn snap_ok(
    sn: Option<Vec<Sides>>,
    key: (i32, i32, i32),
    m: Map<(int, int, int), ChunkView>,
) -> bool {
    match sn {
        Some(v) => {
            &&& m.contains_key(key_view(key))
            &&& v@.len() == 4096
            &&& forall|i: int| 0 <= i < 4096 ==> #[trigger] v@[i] == cell_sides(
                m,
                key_view(key),
                i,
            )
        },
        None => !m.contains_key(key_view(key)),
    }
}

/// The rebuild pass reads the world and rewrites vertex data only: which
/// chunks are loaded and what every block holds are exactly as before.
pub proof fn lemma_rebuild_preserves_blocks(m: Map<(int, int, int), ChunkView>, atlas: UvAtlas)
    ensures
        forall|c: (int, int, int)|
            #[trigger] rebuild_spec(m, atlas).contains_key(c) == m.contains_key(c),
        forall|x: int, y: int, z: int|
            #[trigger] block_at(rebuild_spec(m, atlas), x, y, z) == block_at(m, x, y, z),
{
    let m1 = rebuild_spec(m, atlas);
    assert forall|x: int, y: int, z: int|
        #[trigger] block_at(m1, x, y, z) == block_at(m, x, y, z) by {
        if m.contains_key(chunk_key(x, y, z)) {
            assert(m1[chunk_key(x, y, z)].blocks == m[chunk_key(x, y, z)].blocks);
        }
    }
}

/// Rebuilding is idempotent: a second rebuild pass with no intervening
/// mutation changes nothing, because the first pass leaves no chunk dirty
/// and no dirty neighbour recorded. The hypothesis holds of every world the
/// manager can reach: writes set the dirty flag whenever they record a
/// neighbour, and the rebuild pass clears both together.
pub proof fn lemma_rebuild_idempotent(m: Map<(int, int, int), ChunkView>, atlas: UvAtlas)
    requires
        forall|c: (int, int, int)| m.contains_key(c) ==> dirty_link(#[trigger] m[c]),
    ensures
        rebuild_spec(rebuild_spec(m, atlas), atlas) == rebuild_spec(m, atlas),
{
    let m1 = rebuild_spec(m, atlas);
    assert forall|c: (int, int, int)| m1.contains_key(c) implies !(#[trigger] m1[c]).dirty
        && m1[c].dirty_neighbours == NeighbourSet::spec_empty() by {
        if !dirty_set_contains(m, c) {
            assert(!m[c].dirty);
            assert(m[c].dirty_neighbours == NeighbourSet::spec_empty());
        }
    }
    assert forall|c: (int, int, int)| !(#[trigger] dirty_set_contains(m1, c)) by {
        if neighbour_marks(m1, c) {
            let d = choose|d: (int, int, int)|
                #[trigger] m1.contains_key(d) && m1[d].dirty_neighbours.spec_contains(
                    (c.0 - d.0, c.1 - d.1, c.2 - d.2),
                );
            assert(m1[d].dirty_neighbours == NeighbourSet::spec_empty());
        }
    }
    assert(rebuild_spec(m1, atlas) =~= m1);
}

} // verus!
