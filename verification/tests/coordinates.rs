//! Coordinate mapper behaviour: decomposition, recomposition, and the
//! round trip between them.

use voxel_world::chunk_manager::ChunkManager;

#[test]
fn decompose_positive() {
    let (cx, cy, cz, bx, by, bz) = ChunkManager::get_chunk_and_block_coords(17, 0, 31);
    assert_eq!((cx, cy, cz), (1, 0, 1));
    assert_eq!((bx, by, bz), (1, 0, 15));
}

#[test]
fn decompose_negative_uses_floor_division() {
    let (cx, cy, cz, bx, by, bz) = ChunkManager::get_chunk_and_block_coords(-1, -16, -17);
    assert_eq!((cx, cy, cz), (-1, -1, -2));
    assert_eq!((bx, by, bz), (15, 0, 15));
}

#[test]
fn compose_is_inverse_of_decompose() {
    let samples = [
        (0, 0, 0),
        (15, 5, 5),
        (-1, -1, -1),
        (123_456, -654_321, 16),
        (i32::MAX, i32::MIN, -42),
    ];
    for &(x, y, z) in samples.iter() {
        let r = ChunkManager::get_chunk_and_block_coords(x, y, z);
        assert_eq!(ChunkManager::get_global_coords(r), (x, y, z));
    }
}

#[test]
fn local_coords_always_in_chunk_bounds() {
    for n in -100..100 {
        let (_, _, _, bx, by, bz) = ChunkManager::get_chunk_and_block_coords(n, n * 7, -n * 13);
        assert!(bx < 16);
        assert!(by < 16);
        assert!(bz < 16);
    }
}
