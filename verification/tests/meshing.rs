//! Mesh generation: cube emission, the rebuild pass, its vertex counts and
//! its idempotence.

use voxel_world::block::BlockID;
use voxel_world::block_texture_sides::{BlockFaces, UVRect, UvAtlas, get_uv_every_side};
use voxel_world::chunk::Chunk;
use voxel_world::chunk_manager::ChunkManager;
use voxel_world::mesh::{Sides, Vertex, build_chunk_mesh, write_unit_cube};

fn rect(u: u16, v: u16) -> UVRect {
    UVRect { u_min: u, v_min: v, u_max: u + 16, v_max: v + 16 }
}

fn test_atlas() -> UvAtlas {
    UvAtlas {
        dirt: BlockFaces::All(rect(0, 0)),
        grass_block: BlockFaces::Sides { sides: rect(16, 0), top: rect(32, 0), bottom: rect(0, 0) },
        cobblestone: BlockFaces::All(rect(48, 0)),
        obsidian: BlockFaces::All(rect(64, 0)),
        oak_log: BlockFaces::Sides { sides: rect(80, 0), top: rect(96, 0), bottom: rect(96, 0) },
        oak_leaves: BlockFaces::All(rect(112, 0)),
        debug: BlockFaces::All(rect(128, 0)),
        debug2: BlockFaces::All(rect(144, 0)),
    }
}

fn chunk_at(m: &ChunkManager, key: (i32, i32, i32)) -> &Chunk {
    &m.loaded_chunks.iter().find(|e| e.0 == key).expect("chunk not loaded").1
}

#[test]
fn uv_every_side_orders_faces() {
    let sides = rect(16, 0);
    let top = rect(32, 0);
    let bottom = rect(0, 0);
    let faces = get_uv_every_side(BlockFaces::Sides { sides, top, bottom });
    assert_eq!(faces, (sides, sides, top, bottom, sides, sides));

    let all = rect(48, 0);
    assert_eq!(get_uv_every_side(BlockFaces::All(all)), (all, all, all, all, all, all));

    let (t, b, f, k, l, r) =
        (rect(0, 16), rect(16, 16), rect(32, 16), rect(48, 16), rect(64, 16), rect(80, 16));
    let each = BlockFaces::Each { top: t, bottom: b, front: f, back: k, left: l, right: r };
    assert_eq!(get_uv_every_side(each), (r, l, t, b, f, k));
}

#[test]
fn rebuild_works_in_negative_chunks() {
    let mut m = ChunkManager::new();
    m.load_chunk((-1, -1, -1), Chunk::empty());
    m.set_block(-9, -8, -7, BlockID::Debug);
    m.rebuild_dirty_chunks(&test_atlas());
    let c = chunk_at(&m, (-1, -1, -1));
    assert_eq!(c.vertices_drawn, 36);
    assert!(!c.dirty);
}

#[test]
fn cube_emits_six_vertices_per_visible_face() {
    let r = rect(0, 0);
    let uvf = (r, r, r, r, r, r);
    let mut out: Vec<Vertex> = Vec::new();
    let n = write_unit_cube(&mut out, 3, 4, 5, uvf, (true, true, true, true, true, true));
    assert_eq!(n, 36);
    assert_eq!(out.len(), 36);

    let mut out2: Vec<Vertex> = Vec::new();
    let n2 = write_unit_cube(&mut out2, 0, 0, 0, uvf, (true, false, false, false, false, true));
    assert_eq!(n2, 12);

    let mut out3: Vec<Vertex> = Vec::new();
    let n3 = write_unit_cube(&mut out3, 0, 0, 0, uvf, (false, false, false, false, false, false));
    assert_eq!(n3, 0);
    assert!(out3.is_empty());
}

#[test]
fn cube_vertex_positions_are_block_corners() {
    let r = rect(0, 0);
    let uvf = (r, r, r, r, r, r);
    let mut out: Vec<Vertex> = Vec::new();
    // only the right (+x) face
    write_unit_cube(&mut out, 3, 4, 5, uvf, (true, false, false, false, false, false));
    assert_eq!(out.len(), 6);
    // every vertex of the +x face lies in the x = 4 plane
    for v in out.iter() {
        assert_eq!(v.x, 4);
        assert!(v.y == 4 || v.y == 5);
        assert!(v.z == 5 || v.z == 6);
    }
    // the first vertex samples the rectangle's minimum texel
    assert_eq!(out[0], Vertex { x: 4, y: 4, z: 6, u: 0, v: 0 });
}

#[test]
fn mesher_emits_every_face_of_a_full_chunk_when_all_masks_are_visible() {
    // The mesh builder against an all-visible snapshot: every one of the
    // 4096 blocks emits all 6 faces of 6 vertices.
    let blocks: Vec<BlockID> = vec![BlockID::Dirt; 4096];
    let sides: Vec<Sides> = vec![(true, true, true, true, true, true); 4096];
    let mesh = build_chunk_mesh(&blocks, &sides, &test_atlas());
    assert_eq!(mesh.len(), 4096 * 6 * 6);

    let air: Vec<BlockID> = vec![BlockID::Air; 4096];
    let empty = build_chunk_mesh(&air, &sides, &test_atlas());
    assert_eq!(empty.len(), 0);
}

#[test]
fn full_chunk_vertex_count() {
    // A lone chunk filled with one opaque block: every neighbour is
    // unloaded, so all boundary faces render and interior faces cull.
    let mut m = ChunkManager::new();
    m.load_chunk((0, 0, 0), Chunk::full_of_block(BlockID::Dirt));
    m.rebuild_dirty_chunks(&test_atlas());
    let c = chunk_at(&m, (0, 0, 0));
    // 16x16 faces per side of the cube of blocks, 6 sides, 6 vertices each
    assert_eq!(c.vertices_drawn, 16 * 16 * 6 * 6);
    assert_eq!(c.mesh.len() as u32, c.vertices_drawn);
    assert!(!c.dirty);
}

#[test]
fn single_block_chunk_meshes_all_faces() {
    // One solid block surrounded by air in a lone chunk: the unloaded
    // neighbour policy plays no role; all six faces of the one cube render.
    let mut m = ChunkManager::new();
    m.load_chunk((0, 0, 0), Chunk::empty());
    m.set_block(7, 8, 9, BlockID::Cobblestone);
    m.rebuild_dirty_chunks(&test_atlas());
    let c = chunk_at(&m, (0, 0, 0));
    assert_eq!(c.vertices_drawn, 36);
}

#[test]
fn air_chunk_meshes_to_nothing() {
    let mut m = ChunkManager::new();
    m.load_chunk((0, 0, 0), Chunk::empty());
    m.rebuild_dirty_chunks(&test_atlas());
    let c = chunk_at(&m, (0, 0, 0));
    assert_eq!(c.vertices_drawn, 0);
    assert!(c.mesh.is_empty());
    assert!(!c.dirty);
}

#[test]
fn rebuild_remeshes_dirty_neighbour_across_boundary() {
    let atlas = test_atlas();
    let mut m = ChunkManager::new();
    m.load_chunk((0, 0, 0), Chunk::empty());
    m.load_chunk((1, 0, 0), Chunk::empty());
    m.set_block(16, 5, 5, BlockID::Dirt);  // lone block in chunk (1,0,0)
    m.rebuild_dirty_chunks(&atlas);
    assert_eq!(chunk_at(&m, (1, 0, 0)).vertices_drawn, 36);

    // a write on the shared boundary of chunk (0,0,0) must remesh both:
    // the new block's face against the old one culls, and vice versa
    m.set_block(15, 5, 5, BlockID::Dirt);
    m.rebuild_dirty_chunks(&atlas);
    assert_eq!(chunk_at(&m, (0, 0, 0)).vertices_drawn, 30);
    assert_eq!(chunk_at(&m, (1, 0, 0)).vertices_drawn, 30);
}

#[test]
fn second_rebuild_is_a_no_op() {
    let atlas = test_atlas();
    let mut m = ChunkManager::new();
    m.preload_some_chunks();
    m.set_block(0, 0, 0, BlockID::Air);
    m.rebuild_dirty_chunks(&atlas);
    let before: Vec<((i32, i32, i32), u32, Vec<Vertex>, bool)> = m
        .loaded_chunks
        .iter()
        .map(|e| (e.0, e.1.vertices_drawn, e.1.mesh.clone(), e.1.dirty))
        .collect();
    m.rebuild_dirty_chunks(&atlas);
    let after: Vec<((i32, i32, i32), u32, Vec<Vertex>, bool)> = m
        .loaded_chunks
        .iter()
        .map(|e| (e.0, e.1.vertices_drawn, e.1.mesh.clone(), e.1.dirty))
        .collect();
    assert_eq!(before, after);
    assert!(after.iter().all(|e| !e.3));
}
