//! Voxel types and their material properties.
//!
//! `Air` is the sentinel for "nothing here": it is what a query of an
//! unloaded region returns and the one type that is not solid.

use vstd::prelude::*;

verus! {

/// The material of one voxel cell.
#[derive(Clone, Copy, Debug, PartialEq, Eq, Structural)]
pub enum VoxelType {
    Air,
    Dirt,
    Gravel,
    Sand,
    Sandstone,
    Snow,
    Water,
    Ice,
    Grass,
    Stone,
    WalnutWood,
    WalnutPlanks,
    WalnutLeaves,
    SpruceWood,
    SprucePlanks,
    SpruceLeaves,
    MahoganyWood,
    MahoganyPlanks,
    MahoganyLeaves,
    Cobblestone,
    CopperOre,
    AmethystOre,
    Stonebrick,
    Glass,
}

/// Every voxel type except `Air`, in declaration order: the palette a
/// player can place from.
pub open spec fn all_placeable_types() -> Seq<VoxelType> {
    seq![
        VoxelType::Dirt,
        VoxelType::Gravel,
        VoxelType::Sand,
        VoxelType::Sandstone,
        VoxelType::Snow,
        VoxelType::Water,
        VoxelType::Ice,
        VoxelType::Grass,
        VoxelType::Stone,
        VoxelType::WalnutWood,
        VoxelType::WalnutPlanks,
        VoxelType::WalnutLeaves,
        VoxelType::SpruceWood,
        VoxelType::SprucePlanks,
        VoxelType::SpruceLeaves,
        VoxelType::MahoganyWood,
        VoxelType::MahoganyPlanks,
        VoxelType::MahoganyLeaves,
        VoxelType::Cobblestone,
        VoxelType::CopperOre,
        VoxelType::AmethystOre,
        VoxelType::Stonebrick,
        VoxelType::Glass,
    ]
}

impl VoxelType {
    /// A transparent voxel lets light and sight through; faces behind it
    /// are still rendered.
    pub fn is_transparent(&self) -> (r: bool)
        ensures
            r <==> (*self == VoxelType::Air || *self == VoxelType::Water || *self == VoxelType::Ice
                || *self == VoxelType::Glass || *self == VoxelType::WalnutLeaves || *self
                == VoxelType::SpruceLeaves || *self == VoxelType::MahoganyLeaves),
    {
        matches!(
            self,
            VoxelType::Air
                | VoxelType::Water
                | VoxelType::Ice
                | VoxelType::Glass
                | VoxelType::WalnutLeaves
                | VoxelType::SpruceLeaves
                | VoxelType::MahoganyLeaves
        )
    }

    /// Transparent types whose mesh keeps only the outermost faces.
    pub fn transparent_optimize_outer_only(&self) -> (r: bool)
        ensures
            r <==> (*self == VoxelType::Water || *self == VoxelType::Ice),
    {
        matches!(self, VoxelType::Water | VoxelType::Ice)
    }

    /// Transparent types whose mesh keeps the outer faces and one inner
    /// layer.
    pub fn transparent_optimize_outer_one_inner(&self) -> (r: bool)
        ensures
            r <==> (*self == VoxelType::Glass || *self == VoxelType::WalnutLeaves || *self
                == VoxelType::SpruceLeaves || *self == VoxelType::MahoganyLeaves),
    {
        matches!(
            self,
            VoxelType::Glass
                | VoxelType::WalnutLeaves
                | VoxelType::SpruceLeaves
                | VoxelType::MahoganyLeaves
        )
    }

    /// Only `Air` is not solid: everything else blocks movement.
    pub fn is_not_solid(&self) -> (r: bool)
        ensures
            r <==> *self == VoxelType::Air,
    {
        matches!(self, VoxelType::Air)
    }

    /// Every voxel type except `Air`, in declaration order.
    pub fn get_all_voxel_types() -> (r: Vec<VoxelType>)
        ensures
            r@ =~= all_placeable_types(),
    {
        vec![
            VoxelType::Dirt,
            VoxelType::Gravel,
            VoxelType::Sand,
            VoxelType::Sandstone,
            VoxelType::Snow,
            VoxelType::Water,
            VoxelType::Ice,
            VoxelType::Grass,
            VoxelType::Stone,
            VoxelType::WalnutWood,
            VoxelType::WalnutPlanks,
            VoxelType::WalnutLeaves,
            VoxelType::SpruceWood,
            VoxelType::SprucePlanks,
            VoxelType::SpruceLeaves,
            VoxelType::MahoganyWood,
            VoxelType::MahoganyPlanks,
            VoxelType::MahoganyLeaves,
            VoxelType::Cobblestone,
            VoxelType::CopperOre,
            VoxelType::AmethystOre,
            VoxelType::Stonebrick,
            VoxelType::Glass,
        ]
    }

    /// Human-readable item name of the voxel type.
    pub fn item_name(&self) -> (r: &'static str)
        ensures
            r@ == item_name_spec(*self),
    {
        match self {
            VoxelType::Air => "Air",
            VoxelType::Dirt => "Dirt",
            VoxelType::Gravel => "Gravel",
            VoxelType::Sand => "Sand",
            VoxelType::Sandstone => "Sandstone",
            VoxelType::Snow => "Snow",
            VoxelType::Water => "Water",
            VoxelType::Ice => "Ice",
            VoxelType::Grass => "Grass Block",
            VoxelType::Stone => "Stone",
            VoxelType::WalnutWood => "Walnut Wood",
            VoxelType::WalnutPlanks => "Walnut Planks",
            VoxelType::WalnutLeaves => "Walnut Leaves",
            VoxelType::SpruceWood => "Spruce Wood",
            VoxelType::SprucePlanks => "Spruce Planks",
            VoxelType::SpruceLeaves => "Spruce Leaves",
            VoxelType::MahoganyWood => "Mahogany Wood",
            VoxelType::MahoganyPlanks => "Mahogany Planks",
            VoxelType::MahoganyLeaves => "Mahogany Leaves",
            VoxelType::Cobblestone => "Cobblestone",
            VoxelType::CopperOre => "Copper Ore",
            VoxelType::AmethystOre => "Amethyst Ore",
            VoxelType::Stonebrick => "Stone Brick",
            VoxelType::Glass => "Glass",
        }
    }
}

/// The item name of each voxel type, as a character sequence.
pub open spec fn item_name_spec(v: VoxelType) -> Seq<char> {
    match v {
        VoxelType::Air => "Air"@,
        VoxelType::Dirt => "Dirt"@,
        VoxelType::Gravel => "Gravel"@,
        VoxelType::Sand => "Sand"@,
        VoxelType::Sandstone => "Sandstone"@,
        VoxelType::Snow => "Snow"@,
        VoxelType::Water => "Water"@,
        VoxelType::Ice => "Ice"@,
        VoxelType::Grass => "Grass Block"@,
        VoxelType::Stone => "Stone"@,
        VoxelType::WalnutWood => "Walnut Wood"@,
        VoxelType::WalnutPlanks => "Walnut Planks"@,
        VoxelType::WalnutLeaves => "Walnut Leaves"@,
        VoxelType::SpruceWood => "Spruce Wood"@,
        VoxelType::SprucePlanks => "Spruce Planks"@,
        VoxelType::SpruceLeaves => "Spruce Leaves"@,
        VoxelType::MahoganyWood => "Mahogany Wood"@,
        VoxelType::MahoganyPlanks => "Mahogany Planks"@,
        VoxelType::MahoganyLeaves => "Mahogany Leaves"@,
        VoxelType::Cobblestone => "Cobblestone"@,
        VoxelType::CopperOre => "Copper Ore"@,
        VoxelType::AmethystOre => "Amethyst Ore"@,
        VoxelType::Stonebrick => "Stone Brick"@,
        VoxelType::Glass => "Glass"@,
    }
}

} // verus!
