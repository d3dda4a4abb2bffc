//! Chunk manager behaviour: block reads and writes, dirty propagation,
//! the preloaded checkerboard, and world generation columns.

use voxel_world::block::BlockID;
use voxel_world::chunk::{Chunk, NeighbourSet};
use voxel_world::chunk_manager::ChunkManager;
use voxel_world::world_gen::{generate_column, place_column, place_tree, prepare_region};

fn chunk_at(m: &ChunkManager, key: (i32, i32, i32)) -> &Chunk {
    &m.loaded_chunks.iter().find(|e| e.0 == key).expect("chunk not loaded").1
}

#[test]
fn unloaded_chunk_reads_none_and_ignores_writes() {
    let mut m = ChunkManager::new();
    assert_eq!(m.get_block(3, 4, 5), None);
    m.set_block(3, 4, 5, BlockID::Dirt);
    assert_eq!(m.get_block(3, 4, 5), None);
}

#[test]
fn set_then_get_block() {
    let mut m = ChunkManager::new();
    m.load_chunk((0, 0, 0), Chunk::empty());
    assert_eq!(m.get_block(1, 2, 3), Some(BlockID::Air));
    m.set_block(1, 2, 3, BlockID::Obsidian);
    assert_eq!(m.get_block(1, 2, 3), Some(BlockID::Obsidian));
    assert_eq!(m.get_block(1, 2, 4), Some(BlockID::Air));
}

#[test]
fn get_and_set_aliases_agree() {
    let mut m = ChunkManager::new();
    m.load_chunk((-1, -1, -1), Chunk::empty());
    m.set(-5, -6, -7, BlockID::Debug2);
    assert_eq!(m.get(-5, -6, -7), Some(BlockID::Debug2));
    assert_eq!(m.get_block(-5, -6, -7), Some(BlockID::Debug2));
}

#[test]
fn boundary_write_marks_one_neighbour() {
    let mut m = ChunkManager::new();
    m.load_chunk((0, 0, 0), Chunk::empty());
    m.set_block(15, 5, 5, BlockID::Dirt);
    let c = chunk_at(&m, (0, 0, 0));
    assert!(c.dirty);
    assert_eq!(
        c.dirty_neighbours,
        NeighbourSet { xn: false, xp: true, yn: false, yp: false, zn: false, zp: false },
    );
}

#[test]
fn corner_write_marks_three_neighbours() {
    let mut m = ChunkManager::new();
    m.load_chunk((0, 0, 0), Chunk::empty());
    m.set_block(0, 0, 0, BlockID::Dirt);
    let c = chunk_at(&m, (0, 0, 0));
    assert!(c.dirty);
    assert_eq!(
        c.dirty_neighbours,
        NeighbourSet { xn: true, xp: false, yn: true, yp: false, zn: true, zp: false },
    );
}

#[test]
fn interior_write_marks_no_neighbour() {
    let mut m = ChunkManager::new();
    m.load_chunk((0, 0, 0), Chunk::empty());
    m.set_block(7, 8, 9, BlockID::Dirt);
    let c = chunk_at(&m, (0, 0, 0));
    assert!(c.dirty);
    assert_eq!(c.dirty_neighbours, NeighbourSet::empty());
}

#[test]
fn face_visible_against_unloaded_neighbour() {
    let mut m = ChunkManager::new();
    m.load_chunk((0, 0, 0), Chunk::empty());
    m.set_block(15, 5, 5, BlockID::Cobblestone);
    let (right, left, top, bottom, front, back) = m.get_active_sides_of_block(15, 5, 5);
    assert!(right);  // neighbour chunk (1,0,0) is not loaded
    assert!(left && top && bottom && front && back);
}

#[test]
fn face_hidden_behind_opaque_neighbour_chunk() {
    let mut m = ChunkManager::new();
    m.load_chunk((0, 0, 0), Chunk::empty());
    m.load_chunk((1, 0, 0), Chunk::empty());
    m.set_block(15, 5, 5, BlockID::Cobblestone);
    m.set_block(16, 5, 5, BlockID::Dirt);  // local (0, 5, 5) of chunk (1, 0, 0)
    let (right, left, top, bottom, front, back) = m.get_active_sides_of_block(15, 5, 5);
    assert!(!right);  // occluded across the chunk boundary
    assert!(left && top && bottom && front && back);
}

#[test]
fn face_hidden_behind_solid_in_same_chunk() {
    let mut m = ChunkManager::new();
    m.load_chunk((0, 0, 0), Chunk::empty());
    m.set_block(5, 5, 5, BlockID::Cobblestone);
    m.set_block(6, 5, 5, BlockID::Obsidian);
    let (right, left, _, _, _, _) = m.get_active_sides_of_block(5, 5, 5);
    assert!(!right);  // occluded by the obsidian block
    assert!(left);  // air neighbours stay visible
}

#[test]
fn preload_fills_checkerboard() {
    let mut m = ChunkManager::new();
    m.preload_some_chunks();
    assert_eq!(m.loaded_chunks.len(), 27);
    // (0,0,0): even sum
    assert_eq!(m.get_block(0, 0, 0), Some(BlockID::Cobblestone));
    // chunk (1,0,0): odd sum
    assert_eq!(m.get_block(16, 0, 0), Some(BlockID::Dirt));
    // chunk (-1,-1,0): even sum
    assert_eq!(m.get_block(-1, -1, 0), Some(BlockID::Cobblestone));
}

#[test]
fn column_layout() {
    let mut m = ChunkManager::new();
    prepare_region(&mut m, 1);
    place_column(&mut m, 0, 10, 0);
    assert_eq!(m.get_block(0, 10, 0), Some(BlockID::GrassBlock));
    assert_eq!(m.get_block(0, 9, 0), Some(BlockID::Dirt));
    assert_eq!(m.get_block(0, 8, 0), Some(BlockID::Dirt));
    assert_eq!(m.get_block(0, 7, 0), Some(BlockID::Cobblestone));
    assert_eq!(m.get_block(0, 11, 0), Some(BlockID::Air));
    assert_eq!(m.get_block(0, 50, 0), Some(BlockID::Air));
}

#[test]
fn tree_shape() {
    let mut m = ChunkManager::new();
    prepare_region(&mut m, 1);
    place_column(&mut m, 0, 10, 0);
    place_tree(&mut m, 0, 10, 0);
    // trunk
    for y in 11..=15 {
        assert_eq!(m.get_block(0, y, 0), Some(BlockID::OakLog));
    }
    // wide rings exclude the trunk column
    assert_eq!(m.get_block(2, 13, 2), Some(BlockID::OakLeaves));
    assert_eq!(m.get_block(-2, 14, 1), Some(BlockID::OakLeaves));
    assert_eq!(m.get_block(0, 13, 0), Some(BlockID::OakLog));
    // narrow ring at the trunk top
    assert_eq!(m.get_block(1, 15, 1), Some(BlockID::OakLeaves));
    assert_eq!(m.get_block(2, 15, 0), Some(BlockID::Air));
    // cap: centre plus the four lateral neighbours
    assert_eq!(m.get_block(0, 16, 0), Some(BlockID::OakLeaves));
    assert_eq!(m.get_block(1, 16, 0), Some(BlockID::OakLeaves));
    assert_eq!(m.get_block(-1, 16, 0), Some(BlockID::OakLeaves));
    assert_eq!(m.get_block(0, 16, 1), Some(BlockID::OakLeaves));
    assert_eq!(m.get_block(0, 16, -1), Some(BlockID::OakLeaves));
    assert_eq!(m.get_block(1, 16, 1), Some(BlockID::Air));
}

#[test]
fn generated_column_has_terrain_and_maybe_a_tree() {
    let mut m = ChunkManager::new();
    prepare_region(&mut m, 1);
    let planted = generate_column(&mut m, 3, -2, 12);
    // the terrain column is always written
    assert_eq!(m.get_block(3, 12, -2), Some(BlockID::GrassBlock));
    assert_eq!(m.get_block(3, 11, -2), Some(BlockID::Dirt));
    assert_eq!(m.get_block(3, 10, -2), Some(BlockID::Dirt));
    assert_eq!(m.get_block(3, 9, -2), Some(BlockID::Cobblestone));
    // the tree stands exactly when the 1-in-100 draw said so
    let trunk = m.get_block(3, 13, -2);
    if planted {
        assert_eq!(trunk, Some(BlockID::OakLog));
    } else {
        assert_eq!(trunk, Some(BlockID::Air));
    }
}

#[test]
fn loading_an_occupied_key_replaces_the_chunk() {
    let mut m = ChunkManager::new();
    m.load_chunk((2, 0, 2), Chunk::full_of_block(BlockID::Obsidian));
    assert_eq!(m.get_block(33, 1, 33), Some(BlockID::Obsidian));
    m.load_chunk((2, 0, 2), Chunk::empty());
    assert_eq!(m.get_block(33, 1, 33), Some(BlockID::Air));
    assert_eq!(m.loaded_chunks.len(), 1);
}

#[test]
fn boundary_visibility_toward_negative_neighbour() {
    let mut m = ChunkManager::new();
    m.load_chunk((0, 0, 0), Chunk::empty());
    m.set_block(0, 5, 5, BlockID::Cobblestone);
    let (_, left, _, _, _, _) = m.get_active_sides_of_block(0, 5, 5);
    assert!(left);  // chunk (-1,0,0) is unloaded
    m.load_chunk((-1, 0, 0), Chunk::full_of_block(BlockID::Dirt));
    let (_, left2, _, _, _, _) = m.get_active_sides_of_block(0, 5, 5);
    assert!(!left2);  // now occluded across the negative boundary
}

#[test]
fn is_loaded_reports_map_membership() {
    let mut m = ChunkManager::new();
    assert!(!m.is_loaded((0, 0, 0)));
    m.load_chunk((0, 0, 0), Chunk::full_of_block(BlockID::Dirt));
    assert!(m.is_loaded((0, 0, 0)));
    assert!(!m.is_loaded((0, 1, 0)));
}
