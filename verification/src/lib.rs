//! Chunk streaming engine for a voxel world.
//!
//! The world is an unbounded grid of voxels, split into fixed-size cubic
//! chunks. This crate holds the main-thread coordinator state (the chunk
//! registry, the buffers of pending edits, and the set of chunk coordinates
//! whose generation is in flight), the worker-side work protocol, the
//! nearest-missing-chunk scheduler, and the eviction policy. Threads,
//! channels and GPU uploads live outside the crate; the coordinator exposes
//! a work queue and a result inbox through which a driver runs the pool.

pub mod chunk;
pub mod coords;
pub mod pending;
pub mod registry;
pub mod trees;
pub mod voxel;
pub mod work;
pub mod world;

pub use chunk::Chunk;
pub use coords::ChunkPos;
pub use trees::{generate_mahogany_tree, generate_spruce_tree, generate_walnut_tree};
pub use voxel::VoxelType;
pub use work::WorkItem;
pub use world::World;
