//! Ray picking and AABB collision against the voxel grid, plus the
//! end-to-end generator scenario.

use voxel_world::aabb::AABB;
use voxel_world::block::BlockID;
use voxel_world::chunk::Chunk;
use voxel_world::chunk_manager::ChunkManager;
use voxel_world::collisions::{PlayerState, player_collision_detection, sweep_axis};
use voxel_world::raycast::{FP_ONE, raycast};
use voxel_world::world_gen::{place_column, prepare_region};

#[test]
fn raycast_misses_in_empty_world() {
    let m = ChunkManager::new();
    let hit = raycast(&m, (0, 50 * FP_ONE, 0), (0, -FP_ONE, 0), 100);
    assert_eq!(hit, None);
}

#[test]
fn raycast_straight_down_hits_generated_column() {
    // The generator places a height-10 column at (0, *, 0): a ray cast from
    // (0, 50, 0) straight down must hit (0, 10, 0) entering through the top
    // face.
    let mut m = ChunkManager::new();
    prepare_region(&mut m, 1);
    place_column(&mut m, 0, 10, 0);
    assert_eq!(m.get_block(0, 10, 0), Some(BlockID::GrassBlock));
    let hit = raycast(&m, (0, 50 * FP_ONE, 0), (0, -FP_ONE, 0), 100);
    assert_eq!(hit, Some(((0, 10, 0), (0, 1, 0))));
}

#[test]
fn raycast_reports_lateral_entry_face() {
    let mut m = ChunkManager::new();
    m.load_chunk((0, 0, 0), Chunk::empty());
    m.set_block(8, 5, 5, BlockID::Obsidian);
    // march along +x through the centre of cell y=5, z=5
    let origin = (2 * FP_ONE, 5 * FP_ONE + FP_ONE / 2, 5 * FP_ONE + FP_ONE / 2);
    let hit = raycast(&m, origin, (FP_ONE / 2, 0, 0), 50);
    assert_eq!(hit, Some(((8, 5, 5), (-1, 0, 0))));
}

#[test]
fn raycast_through_unloaded_space_reaches_loaded_chunk() {
    let mut m = ChunkManager::new();
    m.load_chunk((0, 0, 0), Chunk::full_of_block(BlockID::Dirt));
    let hit = raycast(&m, (5 * FP_ONE, 40 * FP_ONE, 5 * FP_ONE), (0, -FP_ONE, 0), 100);
    assert_eq!(hit, Some(((5, 15, 5), (0, 1, 0))));
}

#[test]
fn sweep_clamps_at_obstacle_gap() {
    let mut m = ChunkManager::new();
    m.load_chunk((0, 0, 0), Chunk::empty());
    m.set_block(5, 5, 5, BlockID::Cobblestone);
    // a unit box one block above the obstacle, moving down two blocks
    let a = AABB::new(
        (5 * FP_ONE, 7 * FP_ONE, 5 * FP_ONE),
        (6 * FP_ONE, 8 * FP_ONE, 6 * FP_ONE),
    );
    let r = sweep_axis(&m, &a, 1, -2 * FP_ONE);
    assert_eq!(r, -FP_ONE);  // stops flush on top of the block at y=5
}

#[test]
fn sweep_moves_freely_without_obstacles() {
    let mut m = ChunkManager::new();
    m.load_chunk((0, 0, 0), Chunk::empty());
    let a = AABB::new(
        (5 * FP_ONE, 7 * FP_ONE, 5 * FP_ONE),
        (6 * FP_ONE, 8 * FP_ONE, 6 * FP_ONE),
    );
    assert_eq!(sweep_axis(&m, &a, 1, -2 * FP_ONE), -2 * FP_ONE);
    assert_eq!(sweep_axis(&m, &a, 0, 3 * FP_ONE), 3 * FP_ONE);
    assert_eq!(sweep_axis(&m, &a, 2, -FP_ONE / 2), -FP_ONE / 2);
}

#[test]
fn resting_player_gets_zero_vertical_displacement() {
    // The floor clamp: a player standing exactly on top of a solid column
    // must not sink when downward velocity is applied.
    let mut m = ChunkManager::new();
    prepare_region(&mut m, 1);
    place_column(&mut m, 0, 10, 0);
    // box resting exactly on the grass block's top face (y = 11)
    let mins = (-FP_ONE / 4, 11 * FP_ONE, -FP_ONE / 4);
    let maxs = (FP_ONE / 4, 13 * FP_ONE, FP_ONE / 4);
    let mut player = PlayerState { aabb: AABB::new(mins, maxs), velocity: (0, -FP_ONE, 0) };
    player_collision_detection(&mut player, &m);
    assert_eq!(player.aabb.min_y, 11 * FP_ONE);
    assert_eq!(player.aabb.max_y, 13 * FP_ONE);
    assert_eq!(player.velocity, (0, 0, 0));
}

#[test]
fn falling_player_lands_on_the_column() {
    let mut m = ChunkManager::new();
    prepare_region(&mut m, 1);
    place_column(&mut m, 0, 10, 0);
    // box half a block above the ground, falling one block per frame
    let mins = (-FP_ONE / 4, 11 * FP_ONE + FP_ONE / 2, -FP_ONE / 4);
    let maxs = (FP_ONE / 4, 13 * FP_ONE + FP_ONE / 2, FP_ONE / 4);
    let mut player = PlayerState { aabb: AABB::new(mins, maxs), velocity: (0, -FP_ONE, 0) };
    player_collision_detection(&mut player, &m);
    // clamped after half a block of fall, velocity zeroed
    assert_eq!(player.aabb.min_y, 11 * FP_ONE);
    assert_eq!(player.velocity.1, 0);
}

#[test]
fn lateral_walk_is_not_blocked_by_the_floor() {
    let mut m = ChunkManager::new();
    prepare_region(&mut m, 1);
    // a flat floor at y = 10 under the whole walk
    for x in -4..5 {
        for z in -4..5 {
            m.set_block(x, 10, z, BlockID::Cobblestone);
        }
    }
    let mins = (-FP_ONE / 4, 11 * FP_ONE, -FP_ONE / 4);
    let maxs = (FP_ONE / 4, 13 * FP_ONE, FP_ONE / 4);
    let mut player = PlayerState {
        aabb: AABB::new(mins, maxs),
        velocity: (FP_ONE / 2, -FP_ONE, 0),
    };
    player_collision_detection(&mut player, &m);
    // slides along the floor: x moves, y clamps
    assert_eq!(player.aabb.min_x, -FP_ONE / 4 + FP_ONE / 2);
    assert_eq!(player.aabb.min_y, 11 * FP_ONE);
    assert_eq!(player.velocity, (FP_ONE / 2, 0, 0));
}

#[test]
fn wall_stops_lateral_motion() {
    let mut m = ChunkManager::new();
    m.load_chunk((0, 0, 0), Chunk::empty());
    // a wall of blocks at x = 8 spanning the box's lateral extent
    for y in 4..8 {
        for z in 3..8 {
            m.set_block(8, y, z, BlockID::Obsidian);
        }
    }
    let mins = (6 * FP_ONE, 5 * FP_ONE, 5 * FP_ONE);
    let maxs = (7 * FP_ONE, 7 * FP_ONE, 6 * FP_ONE);
    let mut player = PlayerState { aabb: AABB::new(mins, maxs), velocity: (3 * FP_ONE, 0, 0) };
    player_collision_detection(&mut player, &m);
    // stops flush against the wall at x = 8
    assert_eq!(player.aabb.max_x, 8 * FP_ONE);
    assert_eq!(player.velocity.0, 0);
}
