//! One chunk: a fixed 16x16x16 cube of blocks, the unit of mesh
//! regeneration.
//!
//! A chunk owns its block array (always fully populated; `Air` by default),
//! its current vertex data, and the dirty state that drives remeshing: a
//! `dirty` flag set by any block write, and the set of neighbour offsets
//! whose chunks must also be remeshed because a write landed on the shared
//! boundary.

use vstd::prelude::*;
use crate::block::BlockID;
use crate::coords::block_index;
use crate::mesh::Vertex;

verus! {

/// Blocks per chunk edge.
pub const CHUNK_SIZE: u32 = 16;

/// Blocks per chunk.
pub const CHUNK_VOLUME: u32 = CHUNK_SIZE * CHUNK_SIZE * CHUNK_SIZE;

/// The set of face-adjacent neighbour offsets recorded as dirty: one flag
/// per unit offset along each axis (`xn` is `(-1, 0, 0)`, `xp` is
/// `(1, 0, 0)`, and so on).
#[derive(Clone, Copy, PartialEq, Eq, Structural, Debug)]
pub struct NeighbourSet {
    pub xn: bool,
    pub xp: bool,
    pub yn: bool,
    pub yp: bool,
    pub zn: bool,
    pub zp: bool,
}

impl NeighbourSet {
    /// Whether the offset `o` is recorded in this set.
    pub open spec fn spec_contains(self, o: (int, int, int)) -> bool {
        ||| (self.xn && o == (-1int, 0int, 0int))
        ||| (self.xp && o == (1int, 0int, 0int))
        ||| (self.yn && o == (0int, -1int, 0int))
        ||| (self.yp && o == (0int, 1int, 0int))
        ||| (self.zn && o == (0int, 0int, -1int))
        ||| (self.zp && o == (0int, 0int, 1int))
    }

    /// The set with no offset recorded.
    pub open spec fn spec_empty() -> NeighbourSet {
        NeighbourSet { xn: false, xp: false, yn: false, yp: false, zn: false, zp: false }
    }

    /// Builds the set with no offset recorded.
    pub fn empty() -> (r: NeighbourSet)
        ensures
            r == NeighbourSet::spec_empty(),
    {
        NeighbourSet { xn: false, xp: false, yn: false, yp: false, zn: false, zp: false }
    }
}

/// The mathematical state of a chunk.
#[verifier::ext_equal]
pub ghost struct ChunkView {
    pub blocks: Seq<BlockID>,
    pub dirty: bool,
    pub dirty_neighbours: NeighbourSet,
    pub mesh: Seq<Vertex>,
    pub vertices_drawn: int,
}

/// A chunk's block array is always fully populated.
pub open spec fn chunk_wf(c: ChunkView) -> bool {
    c.blocks.len() == CHUNK_VOLUME
}

/// The boundary offsets that a write at local `(bx, by, bz)` adds to a
/// chunk's dirty-neighbour set: one per axis on which the write touches a
/// chunk boundary face, so an edge or corner block adds up to three.
pub open spec fn neighbours_after_set(n: NeighbourSet, bx: int, by: int, bz: int) -> NeighbourSet {
    NeighbourSet {
        xn: n.xn || bx == 0,
        xp: n.xp || bx == 15,
        yn: n.yn || by == 0,
        yp: n.yp || by == 15,
        zn: n.zn || bz == 0,
        zp: n.zp || bz == 15,
    }
}

/// The chunk state after writing `b` at local `(bx, by, bz)`: the block is
/// stored, the chunk is dirty, and the crossed boundary faces are recorded.
/// Vertex data is untouched until the next rebuild.
pub open spec fn chunk_set_block(c: ChunkView, bx: int, by: int, bz: int, b: BlockID) -> ChunkView {
    ChunkView {
        blocks: c.blocks.update(block_index(bx, by, bz), b),
        dirty: true,
        dirty_neighbours: neighbours_after_set(c.dirty_neighbours, bx, by, bz),
        ..c
    }
}

/// A chunk whose every cell holds block `b`, still awaiting its first
/// rebuild: dirty, with no neighbour marked and no vertex data yet.
pub open spec fn full_chunk(c: ChunkView, b: BlockID) -> bool {
    &&& c.blocks.len() == CHUNK_VOLUME
    &&& forall|i: int| 0 <= i < CHUNK_VOLUME ==> c.blocks[i] == b
    &&& c.dirty
    &&& c.dirty_neighbours == NeighbourSet::spec_empty()
    &&& c.mesh == Seq::<Vertex>::empty()
    &&& c.vertices_drawn == 0
}

/// A fixed 16x16x16 cube of blocks with its vertex data and dirty state.
pub struct Chunk {
    pub blocks: Vec<BlockID>,
    pub dirty: bool,
    pub dirty_neighbours: NeighbourSet,
    pub mesh: Vec<Vertex>,
    pub vertices_drawn: u32,
}

impl View for Chunk {
    type V = ChunkView;

    open spec fn view(&self) -> ChunkView {
        ChunkView {
            blocks: self.blocks@,
            dirty: self.dirty,
            dirty_neighbours: self.dirty_neighbours,
            mesh: self.mesh@,
            vertices_drawn: self.vertices_drawn as int,
        }
    }
}

impl Chunk {
    /// Well-formedness: see [`chunk_wf`].
    pub open spec fn wf(&self) -> bool {
        chunk_wf(self@)
    }

    /// A chunk filled with one block everywhere. Fresh chunks start dirty so
    /// that the next rebuild pass meshes them.
    pub fn full_of_block(b: BlockID) -> (c: Chunk)
        ensures
            c.wf(),
            forall|i: int| 0 <= i < CHUNK_VOLUME ==> c@.blocks[i] == b,
            c@.dirty == true,
            c@.dirty_neighbours == NeighbourSet::spec_empty(),
            c@.mesh == Seq::<Vertex>::empty(),
            c@.vertices_drawn == 0,
    {
        let blocks: Vec<BlockID> = vec![b; 4096];
        Chunk {
            blocks,
            dirty: true,
            dirty_neighbours: NeighbourSet::empty(),
            mesh: Vec::new(),
            vertices_drawn: 0,
        }
    }

    /// A chunk of pure `Air`.
    pub fn empty() -> (c: Chunk)
        ensures
            c.wf(),
            forall|i: int| 0 <= i < CHUNK_VOLUME ==> c@.blocks[i] == BlockID::Air,
            c@.dirty == true,
            c@.dirty_neighbours == NeighbourSet::spec_empty(),
            c@.mesh == Seq::<Vertex>::empty(),
            c@.vertices_drawn == 0,
    {
        Chunk::full_of_block(BlockID::Air)
    }

    /// Reads the block at local `(x, y, z)`.
    pub fn get_block(&self, x: u32, y: u32, z: u32) -> (b: BlockID)
        requires
            self.wf(),
            x < 16,
            y < 16,
            z < 16,
        ensures
            b == self@.blocks[block_index(x as int, y as int, z as int)],
    {
        let i = (256 * y + 16 * z + x) as usize;
        self.blocks[i]
    }

    /// Writes `b` at local `(x, y, z)`, marks the chunk dirty, and records
    /// every chunk boundary face the write touches in `dirty_neighbours`.
    pub fn set_block(&mut self, x: u32, y: u32, z: u32, b: BlockID)
        requires
            old(self).wf(),
            x < 16,
            y < 16,
            z < 16,
        ensures
            final(self).wf(),
            final(self)@ == chunk_set_block(old(self)@, x as int, y as int, z as int, b),
    {
        let i = (256 * y + 16 * z + x) as usize;
        self.blocks[i] = b;
        self.dirty = true;
        if x == 0 {
            self.dirty_neighbours.xn = true;
        }
        if x == 15 {
            self.dirty_neighbours.xp = true;
        }
        if y == 0 {
            self.dirty_neighbours.yn = true;
        }
        if y == 15 {
            self.dirty_neighbours.yp = true;
        }
        if z == 0 {
            self.dirty_neighbours.zn = true;
        }
        if z == 15 {
            self.dirty_neighbours.zp = true;
        }
        proof {
            assert(self@ =~= chunk_set_block(old(self)@, x as int, y as int, z as int, b));
        }
    }
}

} // verus!
