//! Tests of the voxel material table and the procedural tree generators.

use voxel_world::trees::{generate_mahogany_tree, generate_spruce_tree, generate_walnut_tree};
use voxel_world::VoxelType;

#[test]
fn transparency_table() {
    assert!(VoxelType::Air.is_transparent());
    assert!(VoxelType::Water.is_transparent());
    assert!(VoxelType::Ice.is_transparent());
    assert!(VoxelType::Glass.is_transparent());
    assert!(VoxelType::SpruceLeaves.is_transparent());
    assert!(!VoxelType::Stone.is_transparent());
    assert!(!VoxelType::Dirt.is_transparent());
}

#[test]
fn transparent_mesh_optimization_classes() {
    assert!(VoxelType::Water.transparent_optimize_outer_only());
    assert!(VoxelType::Ice.transparent_optimize_outer_only());
    assert!(!VoxelType::Glass.transparent_optimize_outer_only());
    assert!(VoxelType::Glass.transparent_optimize_outer_one_inner());
    assert!(VoxelType::WalnutLeaves.transparent_optimize_outer_one_inner());
    assert!(!VoxelType::Water.transparent_optimize_outer_one_inner());
}

#[test]
fn only_air_is_not_solid() {
    assert!(VoxelType::Air.is_not_solid());
    assert!(!VoxelType::Water.is_not_solid());
    assert!(!VoxelType::Stone.is_not_solid());
}

#[test]
fn all_voxel_types_lists_everything_but_air() {
    let all = VoxelType::get_all_voxel_types();
    assert_eq!(all.len(), 23);
    assert!(!all.contains(&VoxelType::Air));
    assert_eq!(all[0], VoxelType::Dirt);
    assert_eq!(all[22], VoxelType::Glass);
    assert!(all.contains(&VoxelType::MahoganyPlanks));
}

#[test]
fn item_names() {
    assert_eq!(VoxelType::Air.item_name(), "Air");
    assert_eq!(VoxelType::Grass.item_name(), "Grass Block");
    assert_eq!(VoxelType::Stonebrick.item_name(), "Stone Brick");
    assert_eq!(VoxelType::CopperOre.item_name(), "Copper Ore");
    assert_eq!(VoxelType::Glass.item_name(), "Glass");
}

/// The lowest trunk column a generator promises must be present.
fn assert_trunk(voxels: &[(i32, i32, i32, VoxelType)], base: (i32, i32, i32), wood: VoxelType, thick: i32, min_h: i32) {
    for dx in 0..thick {
        for dz in 0..thick {
            for dy in 0..min_h {
                let cell = (base.0 + dx, base.1 + dy, base.2 + dz);
                assert!(
                    voxels.iter().any(|&(x, y, z, t)| (x, y, z) == cell && t == wood),
                    "missing trunk voxel at {:?}",
                    cell
                );
            }
        }
    }
}

#[test]
fn spruce_tree_has_trunk_and_only_spruce_material() {
    let voxels = generate_spruce_tree((10, 20, 30));
    assert!(!voxels.is_empty());
    for &(_, _, _, t) in &voxels {
        assert!(t == VoxelType::SpruceWood || t == VoxelType::SpruceLeaves);
    }
    // Trunk height is drawn from [14, 22): at least 14 wood voxels stand
    // on the base. This also checks the random draw honors its range.
    assert_trunk(&voxels, (10, 20, 30), VoxelType::SpruceWood, 1, 14);
    // And the trunk does not exceed the range's top.
    let column: Vec<i32> = voxels
        .iter()
        .filter(|&&(x, _, z, t)| x == 10 && z == 30 && t == VoxelType::SpruceWood)
        .map(|&(_, y, _, _)| y)
        .collect();
    assert!(column.iter().all(|&y| y < 20 + 22));
}

#[test]
fn walnut_tree_has_thick_trunk() {
    let voxels = generate_walnut_tree((0, 0, 0));
    assert!(!voxels.is_empty());
    for &(_, _, _, t) in &voxels {
        assert!(t == VoxelType::WalnutWood || t == VoxelType::WalnutLeaves);
    }
    assert_trunk(&voxels, (0, 0, 0), VoxelType::WalnutWood, 2, 3);
}

#[test]
fn mahogany_tree_has_thick_trunk_and_only_mahogany_material() {
    let voxels = generate_mahogany_tree((-5, 100, 7));
    assert!(!voxels.is_empty());
    for &(_, _, _, t) in &voxels {
        assert!(t == VoxelType::MahoganyWood || t == VoxelType::MahoganyLeaves);
    }
    assert_trunk(&voxels, (-5, 100, 7), VoxelType::MahoganyWood, 2, 18);
}

#[test]
fn tree_edits_plant_into_the_world() {
    let mut w = voxel_world::World::new(32, 7);
    // Make the chunks around the origin resident so the batch lands.
    for cx in -1..=1 {
        for cy in 0..=1 {
            for cz in -1..=1 {
                w.create_chunk(cx, cy, cz);
            }
        }
    }
    while let Some(item) = w.take_work() {
        let (out, _keep) = voxel_world::work::perform_work(item, w.chunk_size);
        for c in out {
            w.deliver_chunk(c);
        }
    }
    w.process_chunk_updates();
    let voxels = generate_walnut_tree((0, 0, 0));
    w.load_voxels_world_async(voxels, (4, 0, 4));
    while let Some(item) = w.take_work() {
        let (out, _keep) = voxel_world::work::perform_work(item, w.chunk_size);
        for c in out {
            w.deliver_chunk(c);
        }
    }
    w.process_chunk_updates();
    // The trunk base must now stand at the offset position.
    assert_eq!(w.get_voxel(4, 0, 4), VoxelType::WalnutWood);
}
