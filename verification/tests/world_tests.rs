//! End-to-end tests of the streaming coordinator, driving the worker
//! protocol in-process: items taken from the queue are performed and the
//! finished chunks delivered back, exactly as the thread pool would.

use voxel_world::work::perform_work;
use voxel_world::{ChunkPos, VoxelType, World};

/// Perform all queued work on the calling thread and deliver the results.
fn pump(w: &mut World) {
    while let Some(item) = w.take_work() {
        let (out, _keep) = perform_work(item, w.chunk_size);
        for c in out {
            w.deliver_chunk(c);
        }
    }
}

/// Generate the chunk at the given chunk coordinate and settle it.
fn make_resident(w: &mut World, cx: i32, cy: i32, cz: i32) {
    w.create_chunk(cx, cy, cz);
    pump(w);
    w.process_chunk_updates();
    assert!(w.registry.contains(ChunkPos { x: cx, y: cy, z: cz }));
}

#[test]
fn unloaded_world_reads_air() {
    let w = World::new(32, 7);
    assert_eq!(w.get_voxel(0, 0, 0), VoxelType::Air);
    assert_eq!(w.get_voxel(-1, -1, -1), VoxelType::Air);
    assert_eq!(w.get_voxel(1_000_000, -500, 123_456), VoxelType::Air);
}

#[test]
fn generated_terrain_has_surface() {
    let mut w = World::new(32, 7);
    make_resident(&mut w, 0, -1, 0);
    make_resident(&mut w, 0, 0, 0);
    // Stand-in terrain: stone below height -1, grass at -1, air above.
    assert_eq!(w.get_voxel(5, -2, 5), VoxelType::Stone);
    assert_eq!(w.get_voxel(5, -1, 5), VoxelType::Grass);
    assert_eq!(w.get_voxel(5, 0, 5), VoxelType::Air);
}

#[test]
fn never_generated_coordinate_stays_air_after_activity() {
    let mut w = World::new(32, 7);
    make_resident(&mut w, 0, 0, 0);
    // A coordinate in a chunk that was never generated still reads air.
    assert_eq!(w.get_voxel(32 * 10, 0, 0), VoxelType::Air);
}

#[test]
fn sync_edit_round_trip() {
    let mut w = World::new(32, 7);
    make_resident(&mut w, 0, 0, 0);
    assert!(w.set_voxel_main_thread(3, 4, 5, VoxelType::Cobblestone));
    assert_eq!(w.get_voxel(3, 4, 5), VoxelType::Cobblestone);
    // Other voxels of the chunk are untouched.
    assert_eq!(w.get_voxel(3, 4, 6), VoxelType::Air);
}

#[test]
fn sync_edit_round_trip_negative_coordinates() {
    let mut w = World::new(32, 7);
    make_resident(&mut w, -1, -1, -1);
    assert!(w.set_voxel_main_thread(-1, -1, -1, VoxelType::Glass));
    assert_eq!(w.get_voxel(-1, -1, -1), VoxelType::Glass);
    assert_eq!(w.get_voxel(-2, -1, -1), VoxelType::Grass);
}

#[test]
fn sync_edit_on_unloaded_chunk_does_nothing() {
    let mut w = World::new(32, 7);
    assert!(!w.set_voxel_main_thread(3, 4, 5, VoxelType::Cobblestone));
    assert_eq!(w.get_voxel(3, 4, 5), VoxelType::Air);
}

#[test]
fn async_edit_settles_after_one_drain_cycle() {
    let mut w = World::new(32, 7);
    make_resident(&mut w, 0, 0, 0);
    assert!(w.set_voxel_async(1, 2, 3, VoxelType::Sand));
    // While the chunk is in flight the coordinate reads as unloaded.
    assert_eq!(w.get_voxel(1, 2, 3), VoxelType::Air);
    pump(&mut w);
    w.process_chunk_updates();
    assert_eq!(w.get_voxel(1, 2, 3), VoxelType::Sand);
}

#[test]
fn async_edit_cycle_helper_settles_edit() {
    let mut w = World::new(32, 7);
    make_resident(&mut w, 0, 0, 0);
    assert!(w.run_async_edit_cycle(8, 9, 10, VoxelType::Snow));
    assert_eq!(w.get_voxel(8, 9, 10), VoxelType::Snow);
}

#[test]
fn async_edit_on_unloaded_chunk_returns_false() {
    let mut w = World::new(32, 7);
    assert!(!w.set_voxel_async(1, 2, 3, VoxelType::Sand));
    assert!(!w.run_async_edit_cycle(1, 2, 3, VoxelType::Sand));
}

#[test]
fn batch_edits_partition_to_their_chunks() {
    let mut w = World::new(32, 7);
    make_resident(&mut w, 0, 9, 0);
    make_resident(&mut w, 1, 9, 0);
    // Local offsets (0,0,0), (0,1,0), (40,0,0) with offset (0,300,0):
    // world (0,300,0) and (0,301,0) land in chunk (0,9,0), world
    // (40,300,0) lands in chunk (1,9,0).
    let edits = vec![
        (0, 0, 0, VoxelType::Dirt),
        (0, 1, 0, VoxelType::Gravel),
        (40, 0, 0, VoxelType::Stonebrick),
    ];
    w.load_voxels_world_async(edits, (0, 300, 0));
    pump(&mut w);
    w.process_chunk_updates();
    assert_eq!(w.get_voxel(0, 300, 0), VoxelType::Dirt);
    assert_eq!(w.get_voxel(0, 301, 0), VoxelType::Gravel);
    assert_eq!(w.get_voxel(40, 300, 0), VoxelType::Stonebrick);
    // Cells no edit named are untouched.
    assert_eq!(w.get_voxel(1, 300, 0), VoxelType::Air);
}

#[test]
fn batch_edits_for_unloaded_chunks_are_lost() {
    let mut w = World::new(32, 7);
    make_resident(&mut w, 0, 9, 0);
    let edits = vec![(0, 0, 0, VoxelType::Dirt), (40, 0, 0, VoxelType::Stonebrick)];
    w.load_voxels_world_async(edits, (0, 300, 0));
    pump(&mut w);
    w.process_chunk_updates();
    assert_eq!(w.get_voxel(0, 300, 0), VoxelType::Dirt);
    // Chunk (1,9,0) was never resident: its edit is dropped, and the
    // chunk is not created by the batch path.
    assert!(!w.registry.contains(ChunkPos { x: 1, y: 9, z: 0 }));
}

#[test]
fn later_edits_win_within_a_batch() {
    let mut w = World::new(32, 7);
    make_resident(&mut w, 0, 0, 0);
    let edits = vec![(4, 4, 4, VoxelType::Dirt), (4, 4, 4, VoxelType::Ice)];
    w.load_voxels_world_async(edits, (0, 0, 0));
    pump(&mut w);
    w.process_chunk_updates();
    assert_eq!(w.get_voxel(4, 4, 4), VoxelType::Ice);
}

#[test]
fn out_of_bounds_edits_are_rerouted_and_seed_generation() {
    let mut w = World::new(32, 7);
    // A finished chunk comes back carrying an edit that belongs to chunk
    // (3, 0, 0).
    let mut c = voxel_world::Chunk::new(ChunkPos { x: 0, y: 0, z: 0 }, 32);
    c.out_of_bounds_voxels.push((100, 5, 6, VoxelType::CopperOre));
    w.deliver_chunk(c);
    w.process_chunk_updates();
    assert!(w.registry.contains(ChunkPos { x: 0, y: 0, z: 0 }));
    // The edit waits for chunk (3,0,0); generating that chunk applies it.
    make_resident(&mut w, 3, 0, 0);
    assert_eq!(w.get_voxel(100, 5, 6), VoxelType::CopperOre);
}

#[test]
fn scheduler_picks_nearest_missing_chunk() {
    let mut w = World::new(32, 7);
    make_resident(&mut w, 0, 0, 0);
    make_resident(&mut w, 1, 0, 0);
    assert!(w.generate_nearest_missing_chunk_simple(0, 0, 0));
    let item = w.take_work().expect("a generation item must be queued");
    match item {
        voxel_world::WorkItem::Generate { position, .. } => {
            // The nearest hole is at distance 1; first in enumeration
            // order among those is (-1, 0, 0).
            assert_eq!(position, ChunkPos { x: -1, y: 0, z: 0 });
        }
        _ => panic!("expected a generation item"),
    }
}

#[test]
fn scheduler_skips_pending_coordinates() {
    let mut w = World::new(32, 7);
    make_resident(&mut w, 0, 0, 0);
    // First pick marks (-1,0,0) pending; the second must pick another
    // distance-1 neighbor even though (-1,0,0) is still missing.
    assert!(w.generate_nearest_missing_chunk_simple(0, 0, 0));
    assert!(w.generate_nearest_missing_chunk_simple(0, 0, 0));
    let first = w.take_work().expect("first generation item");
    let second = w.take_work().expect("second generation item");
    let p1 = match first {
        voxel_world::WorkItem::Generate { position, .. } => position,
        _ => panic!("expected a generation item"),
    };
    let p2 = match second {
        voxel_world::WorkItem::Generate { position, .. } => position,
        _ => panic!("expected a generation item"),
    };
    assert_eq!(p1, ChunkPos { x: -1, y: 0, z: 0 });
    assert_eq!(p2, ChunkPos { x: 0, y: -1, z: 0 });
    assert_ne!(p1, p2);
}

#[test]
fn scheduler_returns_false_when_ball_is_full() {
    let mut w = World::new(32, 7);
    // Make every coordinate in the radius-5 ball pending by repeated
    // scheduling; eventually nothing is left to pick.
    let mut dispatched: u32 = 0;
    while w.generate_nearest_missing_chunk_simple(0, 0, 0) {
        dispatched += 1;
        assert!(dispatched < 2000, "scheduler must exhaust the ball");
    }
    assert!(dispatched > 0);
    assert!(!w.generate_nearest_missing_chunk_simple(0, 0, 0));
}

#[test]
fn eviction_uses_chebyshev_distance_and_keeps_the_boundary() {
    let mut w = World::new(32, 7);
    make_resident(&mut w, 0, 0, 0);
    make_resident(&mut w, 2, -2, 1);
    make_resident(&mut w, 3, 0, 0);
    make_resident(&mut w, 0, 0, -3);
    w.remove_distant_chunks(0, 0, 0, 2);
    assert!(w.registry.contains(ChunkPos { x: 0, y: 0, z: 0 }));
    // Chebyshev distance exactly 2 is retained.
    assert!(w.registry.contains(ChunkPos { x: 2, y: -2, z: 1 }));
    // Distance 3 is evicted.
    assert!(!w.registry.contains(ChunkPos { x: 3, y: 0, z: 0 }));
    assert!(!w.registry.contains(ChunkPos { x: 0, y: 0, z: -3 }));
}

#[test]
fn evicted_chunk_regenerates_from_scratch() {
    let mut w = World::new(32, 7);
    make_resident(&mut w, 0, 0, 0);
    assert!(w.set_voxel_main_thread(1, 1, 1, VoxelType::AmethystOre));
    w.remove_distant_chunks(100, 0, 0, 4);
    assert!(!w.registry.contains(ChunkPos { x: 0, y: 0, z: 0 }));
    assert_eq!(w.get_voxel(1, 1, 1), VoxelType::Air);
    // Regeneration yields plain terrain: the edit is gone.
    make_resident(&mut w, 0, 0, 0);
    assert_eq!(w.get_voxel(1, 1, 1), VoxelType::Air);
}

#[test]
fn remesh_now_reports_residency() {
    let mut w = World::new(32, 7);
    assert!(!w.remesh_now(0, 0, 0));
    make_resident(&mut w, 0, 0, 0);
    assert!(w.remesh_now(0, 0, 0));
}

#[test]
fn update_chunks_around_player_evicts_and_schedules() {
    let mut w = World::new(32, 7);
    make_resident(&mut w, 9, 0, 0);
    w.update_chunks_around_player(0, 0, 0);
    assert!(!w.registry.contains(ChunkPos { x: 9, y: 0, z: 0 }));
    // One generation item was dispatched for the nearest hole.
    let item = w.take_work().expect("a generation item must be queued");
    match item {
        voxel_world::WorkItem::Generate { position, .. } => {
            assert_eq!(position, ChunkPos { x: 0, y: 0, z: 0 });
        }
        _ => panic!("expected a generation item"),
    }
}

#[test]
fn emptiness_queries_match_grid_contents() {
    let mut w = World::new(4, 7);
    make_resident(&mut w, 0, 1, 0);
    let p = ChunkPos { x: 0, y: 1, z: 0 };
    // High above the surface the generated chunk is pure air.
    assert!(w.registry.get(p).unwrap().is_empty());
    assert!(w.registry.get(p).unwrap().is_transparent_empty());
    assert!(w.set_voxel_main_thread(0, 4, 0, VoxelType::Water));
    assert!(!w.registry.get(p).unwrap().is_empty());
    // Water is transparent, so the transparent pass now has work.
    assert!(!w.registry.get(p).unwrap().is_transparent_empty());
    assert!(w.set_voxel_main_thread(0, 4, 0, VoxelType::Stone));
    assert!(!w.registry.get(p).unwrap().is_empty());
    assert!(w.registry.get(p).unwrap().is_transparent_empty());
}

#[test]
fn border_edit_refreshes_resident_neighbor_meshes() {
    let mut w = World::new(4, 7);
    make_resident(&mut w, 0, 1, 0);
    make_resident(&mut w, 1, 1, 0);
    // Make both meshes stale in a way only a remesh would clear.
    {
        // The edit at local x = 3 touches the boundary to chunk (1,1,0).
        assert!(w.set_voxel_main_thread(3, 4, 0, VoxelType::Dirt));
    }
    let edited = w.registry.get(ChunkPos { x: 0, y: 1, z: 0 }).unwrap();
    assert!(edited.mesh_ready && edited.gpu_ready);
    let neighbor = w.registry.get(ChunkPos { x: 1, y: 1, z: 0 }).unwrap();
    assert!(neighbor.mesh_ready && neighbor.gpu_ready);
}

#[test]
fn request_remesh_checks_the_chunk_out_and_back() {
    let mut w = World::new(32, 7);
    make_resident(&mut w, 0, 0, 0);
    assert!(w.set_voxel_main_thread(2, 2, 2, VoxelType::Sandstone));
    w.request_remesh(0, 0, 0);
    // In flight: the chunk is absent and its voxels read as unloaded.
    assert!(!w.registry.contains(ChunkPos { x: 0, y: 0, z: 0 }));
    assert_eq!(w.get_voxel(2, 2, 2), VoxelType::Air);
    pump(&mut w);
    w.process_chunk_updates();
    // Back and intact.
    assert_eq!(w.get_voxel(2, 2, 2), VoxelType::Sandstone);
}

#[test]
fn pending_mark_is_cleared_when_the_result_is_drained() {
    let mut w = World::new(32, 7);
    // The scheduler marks its pick pending, which blocks a re-pick...
    assert!(w.generate_nearest_missing_chunk_simple(0, 0, 0));
    assert!(w.generate_nearest_missing_chunk_simple(0, 0, 0));
    // ...until the results are drained; then the next hole is chosen.
    pump(&mut w);
    w.process_chunk_updates();
    assert!(w.registry.contains(ChunkPos { x: 0, y: 0, z: 0 }));
    assert!(w.registry.contains(ChunkPos { x: -1, y: 0, z: 0 }));
    assert!(w.generate_nearest_missing_chunk_simple(0, 0, 0));
    let item = w.take_work().expect("a generation item must be queued");
    match item {
        voxel_world::WorkItem::Generate { position, .. } => {
            assert_eq!(position, ChunkPos { x: 0, y: -1, z: 0 });
        }
        _ => panic!("expected a generation item"),
    }
}
