//! A voxel world core: a sparse grid of fixed-size block chunks with
//! dirty-tracked mesh regeneration, ray picking and AABB collision.
//!
//! The world is partitioned into 16x16x16 chunks addressed by signed chunk
//! coordinates. Blocks are written through [`chunk_manager::ChunkManager`],
//! which tracks which chunks (and which of their neighbours, for writes on a
//! chunk boundary) need their vertex data rebuilt. Geometry is emitted in
//! integer units: vertex positions are chunk-local block corners and texture
//! coordinates are texel offsets into the atlas, so the whole pipeline is
//! exact arithmetic.

pub mod aabb;
pub mod block;
pub mod block_texture_sides;
pub mod chunk;
pub mod chunk_manager;
pub mod collisions;
pub mod coords;
pub mod mesh;
pub mod raycast;
pub mod world_gen;
