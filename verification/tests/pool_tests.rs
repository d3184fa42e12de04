//! Tests of the worker pool protocol: one result per item, exactly one
//! `Exit` consumed per worker on shutdown.

use voxel_world::chunk::Chunk;
use voxel_world::work::{perform_work, run_pool, worker_session, WorkItem};
use voxel_world::{ChunkPos, VoxelType, World};

#[test]
fn exit_item_stops_a_worker_and_yields_nothing() {
    let (out, keep) = perform_work(WorkItem::Exit, 32);
    assert!(out.is_empty());
    assert!(!keep);
}

#[test]
fn generate_item_yields_one_meshed_chunk() {
    let item = WorkItem::Generate { position: ChunkPos { x: 2, y: -1, z: 3 }, seed_edits: None };
    let (out, keep) = perform_work(item, 32);
    assert!(keep);
    assert_eq!(out.len(), 1);
    let c = &out[0];
    assert_eq!(c.position, ChunkPos { x: 2, y: -1, z: 3 });
    assert!(c.mesh_ready);
    // Terrain rule at chunk height -1: grass on the top layer.
    assert_eq!(c.get_voxel(0, 31, 0), VoxelType::Grass);
    assert_eq!(c.get_voxel(0, 30, 0), VoxelType::Stone);
}

#[test]
fn generate_item_applies_seed_edits_over_terrain() {
    let item = WorkItem::Generate {
        position: ChunkPos { x: 0, y: 0, z: 0 },
        seed_edits: Some(vec![(1, 2, 3, VoxelType::Sandstone)]),
    };
    let (out, _keep) = perform_work(item, 32);
    assert_eq!(out.len(), 1);
    assert_eq!(out[0].get_voxel(1, 2, 3), VoxelType::Sandstone);
    assert_eq!(out[0].get_voxel(1, 2, 4), VoxelType::Air);
}

#[test]
fn generate_item_routes_misdirected_seed_edits_onward() {
    // A seed edit whose world position lies outside the generated chunk
    // ends up on the chunk's out-of-bounds list instead of its grid.
    let item = WorkItem::Generate {
        position: ChunkPos { x: 0, y: 0, z: 0 },
        seed_edits: Some(vec![(64, 2, 3, VoxelType::Sandstone)]),
    };
    let (out, _keep) = perform_work(item, 32);
    assert_eq!(out.len(), 1);
    assert_eq!(out[0].out_of_bounds_voxels, vec![(64, 2, 3, VoxelType::Sandstone)]);
}

#[test]
fn modify_voxel_item_converts_world_to_local_with_rem_euclid() {
    let chunk = Chunk::new(ChunkPos { x: -1, y: 0, z: 0 }, 32);
    let item = WorkItem::ModifyVoxel { chunk, wx: -1, wy: 5, wz: 6, voxel_type: VoxelType::Ice };
    let (out, _keep) = perform_work(item, 32);
    assert_eq!(out.len(), 1);
    // World x = -1 maps to local x = 31 of chunk -1.
    assert_eq!(out[0].get_voxel(31, 5, 6), VoxelType::Ice);
}

#[test]
fn batch_item_emits_one_chunk_per_touched_chunk() {
    let a = Chunk::new(ChunkPos { x: 0, y: 0, z: 0 }, 32);
    let b = Chunk::new(ChunkPos { x: 1, y: 0, z: 0 }, 32);
    let c = Chunk::new(ChunkPos { x: 2, y: 0, z: 0 }, 32);
    let item = WorkItem::ModifyVoxelsBatch {
        updates: vec![(0, 0, 0, VoxelType::Dirt), (40, 0, 0, VoxelType::Sand)],
        offset: (0, 0, 0),
        chunks: vec![a, b, c],
    };
    let (out, _keep) = perform_work(item, 32);
    // Chunks 0 and 1 are touched; chunk 2 is dropped.
    assert_eq!(out.len(), 2);
    assert_eq!(out[0].position, ChunkPos { x: 0, y: 0, z: 0 });
    assert_eq!(out[0].get_voxel(0, 0, 0), VoxelType::Dirt);
    assert_eq!(out[1].position, ChunkPos { x: 1, y: 0, z: 0 });
    assert_eq!(out[1].get_voxel(8, 0, 0), VoxelType::Sand);
}

#[test]
fn worker_session_consumes_up_to_one_exit() {
    let c = Chunk::new(ChunkPos { x: 0, y: 0, z: 0 }, 4);
    let mut queue = vec![WorkItem::Remesh { chunk: c }, WorkItem::Exit, WorkItem::Exit];
    let mut results = Vec::new();
    assert!(worker_session(&mut queue, &mut results, 4));
    // The remesh produced one result; exactly one exit was consumed.
    assert_eq!(results.len(), 1);
    assert_eq!(queue.len(), 1);
}

#[test]
fn worker_session_blocks_without_an_exit() {
    let c = Chunk::new(ChunkPos { x: 0, y: 0, z: 0 }, 4);
    let mut queue = vec![WorkItem::Remesh { chunk: c }];
    let mut results = Vec::new();
    // No exit in the queue: the worker drains it and never terminates
    // (modeled as a false return once the queue runs dry).
    assert!(!worker_session(&mut queue, &mut results, 4));
    assert!(queue.is_empty());
}

#[test]
fn shutdown_with_exact_exit_count_joins_all_workers() {
    let mut w = World::new(32, 7);
    w.send_exit_signals();
    let mut queue = std::mem::take(&mut w.work_queue);
    assert_eq!(queue.len(), w.worker_count);
    let mut results = Vec::new();
    let joined = run_pool(&mut queue, &mut results, 32, w.worker_count);
    assert_eq!(joined, w.worker_count);
}

#[test]
fn shutdown_with_too_few_exits_leaves_workers_blocked() {
    let workers: usize = 10;
    let mut queue = Vec::new();
    for _ in 0..workers - 1 {
        queue.push(WorkItem::Exit);
    }
    let mut results = Vec::new();
    let joined = run_pool(&mut queue, &mut results, 32, workers);
    assert_eq!(joined, workers - 1);
    assert!(joined < workers);
}

#[test]
fn extra_exits_do_not_hurt() {
    let workers: usize = 3;
    let mut queue = Vec::new();
    for _ in 0..5 {
        queue.push(WorkItem::Exit);
    }
    let mut results = Vec::new();
    let joined = run_pool(&mut queue, &mut results, 32, workers);
    assert_eq!(joined, workers);
    assert_eq!(queue.len(), 2);
}
