//! One chunk: a dense cubic voxel grid with its mesh bookkeeping.
//!
//! A chunk owns `chunk_size^3` voxels, a transient list of edits that fell
//! outside its bounds during generation or seeding, and two flags that
//! model its derived state: `mesh_ready` (the CPU mesh buffers match the
//! grid) and `gpu_ready` (the GPU copy matches the CPU mesh). Mesh building
//! and the GPU upload themselves are collaborators of this crate; here only
//! their up-to-date-ness is tracked, which is what the streaming protocol
//! is about.

use vstd::arithmetic::div_mod::{lemma_fundamental_div_mod_converse_div, lemma_fundamental_div_mod_converse_mod};
use vstd::prelude::*;

use crate::coords::{local_axis, ChunkPos};
use crate::voxel::VoxelType;

verus! {

/// Flat index of the local cell `(lx, ly, lz)` in a grid of edge `cs`.
pub open spec fn chunk_index(cs: int, lx: int, ly: int, lz: int) -> int {
    (lx * cs + ly) * cs + lz
}

/// The stand-in terrain rule: solid stone below world height `-1`, a grass
/// surface layer at `-1`, air above. Terrain generation proper is an
/// excluded collaborator; the streaming engine only needs generation to be
/// a function of the cell position.
pub open spec fn terrain_voxel(wy: int) -> VoxelType {
    if wy < -1 {
        VoxelType::Stone
    } else if wy == -1 {
        VoxelType::Grass
    } else {
        VoxelType::Air
    }
}

/// Largest accepted chunk edge length; keeps `chunk_size^3` and all index
/// arithmetic well inside `usize` range.
pub const MAX_CHUNK_SIZE: usize = 1024;

/// One cubic block of voxels, the unit of generation, meshing and
/// eviction.
pub struct Chunk {
    /// Coordinate of this chunk in the chunk grid.
    pub position: ChunkPos,
    /// Edge length of the cubic grid.
    pub chunk_size: usize,
    /// Dense voxel grid, indexed by `chunk_index`.
    pub voxels: Vec<VoxelType>,
    /// Absolute-coordinate edits that landed outside this chunk's bounds;
    /// the coordinator re-routes them to their true target chunks.
    pub out_of_bounds_voxels: Vec<(i32, i32, i32, VoxelType)>,
    /// Set when a neighbor's border edit made this chunk's mesh stale; the
    /// coordinator turns it into a remesh work item.
    pub needs_rebuild: bool,
    /// The CPU mesh buffers match the voxel grid.
    pub mesh_ready: bool,
    /// The GPU copy matches the CPU mesh buffers.
    pub gpu_ready: bool,
}

impl Chunk {
    /// Well-formedness: a positive, bounded edge length and a grid of
    /// exactly `chunk_size^3` cells.
    pub open spec fn wf(self) -> bool {
        &&& 1 <= self.chunk_size <= MAX_CHUNK_SIZE
        &&& self.voxels@.len() == (self.chunk_size * self.chunk_size * self.chunk_size)
    }

    /// The voxel in local cell `(lx, ly, lz)`.
    pub open spec fn voxel_at(self, lx: int, ly: int, lz: int) -> VoxelType {
        self.voxels@[chunk_index(self.chunk_size as int, lx, ly, lz)]
    }

    /// True when `(lx, ly, lz)` is a cell of this chunk.
    pub open spec fn in_bounds(self, lx: int, ly: int, lz: int) -> bool {
        0 <= lx < self.chunk_size && 0 <= ly < self.chunk_size && 0 <= lz < self.chunk_size
    }

    /// The voxel at an absolute world position inside this chunk.
    pub open spec fn voxel_at_world(self, wx: int, wy: int, wz: int) -> VoxelType {
        let cs = self.chunk_size as int;
        self.voxel_at(local_axis(wx, cs), local_axis(wy, cs), local_axis(wz, cs))
    }

    /// A fresh all-air chunk at `position`: nothing generated yet, no
    /// pending out-of-bounds edits, mesh and GPU state stale.
    pub fn new(position: ChunkPos, chunk_size: usize) -> (c: Chunk)
        requires
            1 <= chunk_size <= MAX_CHUNK_SIZE,
        ensures
            c.wf(),
            c.position == position,
            c.chunk_size == chunk_size,
            forall|lx: int, ly: int, lz: int|
                c.in_bounds(lx, ly, lz) ==> c.voxel_at(lx, ly, lz) == VoxelType::Air,
            c.out_of_bounds_voxels@ =~= Seq::<(i32, i32, i32, VoxelType)>::empty(),
            !c.needs_rebuild,
            !c.mesh_ready,
            !c.gpu_ready,
    {
        proof {
            lemma_cube_bound(chunk_size as int);
        }
        let total: usize = chunk_size * chunk_size * chunk_size;
        let mut voxels: Vec<VoxelType> = Vec::new();
        while voxels.len() < total
            invariant
                voxels@.len() <= total,
                forall|i: int| 0 <= i < voxels@.len() ==> voxels@[i] == VoxelType::Air,
            decreases total - voxels@.len(),
        {
            voxels.push(VoxelType::Air);
        }
        let c = Chunk {
            position,
            chunk_size,
            voxels,
            out_of_bounds_voxels: Vec::new(),
            needs_rebuild: false,
            mesh_ready: false,
            gpu_ready: false,
        };
        proof {
            assert forall|lx: int, ly: int, lz: int| c.in_bounds(lx, ly, lz) implies c.voxel_at(
                lx,
                ly,
                lz,
            ) == VoxelType::Air by {
                lemma_chunk_index_bounds(chunk_size as int, lx, ly, lz);
            }
        }
        c
    }

    /// The voxel in local cell `(lx, ly, lz)`.
    pub fn get_voxel(&self, lx: usize, ly: usize, lz: usize) -> (v: VoxelType)
        requires
            self.wf(),
            self.in_bounds(lx as int, ly as int, lz as int),
        ensures
            v == self.voxel_at(lx as int, ly as int, lz as int),
    {
        proof {
            lemma_chunk_index_bounds(self.chunk_size as int, lx as int, ly as int, lz as int);
        }
        let idx: usize = (lx * self.chunk_size + ly) * self.chunk_size + lz;
        self.voxels[idx]
    }

    /// Write one voxel. The grid changes in exactly that cell; the mesh
    /// and GPU state become stale.
    pub fn set_voxel(&mut self, lx: usize, ly: usize, lz: usize, voxel_type: VoxelType)
        requires
            old(self).wf(),
            old(self).in_bounds(lx as int, ly as int, lz as int),
        ensures
            final(self).wf(),
            final(self).position == old(self).position,
            final(self).chunk_size == old(self).chunk_size,
            final(self).out_of_bounds_voxels == old(self).out_of_bounds_voxels,
            final(self).needs_rebuild == old(self).needs_rebuild,
            !final(self).mesh_ready,
            !final(self).gpu_ready,
            final(self).voxel_at(lx as int, ly as int, lz as int) == voxel_type,
            forall|ax: int, ay: int, az: int|
                old(self).in_bounds(ax, ay, az) && !(ax == lx as int && ay == ly as int && az
                    == lz as int) ==> final(self).voxel_at(ax, ay, az) == old(self).voxel_at(
                    ax,
                    ay,
                    az,
                ),
    {
        proof {
            lemma_chunk_index_bounds(self.chunk_size as int, lx as int, ly as int, lz as int);
        }
        let idx: usize = (lx * self.chunk_size + ly) * self.chunk_size + lz;
        self.voxels.set(idx, voxel_type);
        self.mesh_ready = false;
        self.gpu_ready = false;
        proof {
            let cs = self.chunk_size as int;
            assert forall|ax: int, ay: int, az: int|
                old(self).in_bounds(ax, ay, az) && !(ax == lx as int && ay == ly as int && az
                    == lz as int) implies self.voxel_at(ax, ay, az) == old(self).voxel_at(
                ax,
                ay,
                az,
            ) by {
                lemma_chunk_index_bounds(cs, ax, ay, az);
                lemma_chunk_index_distinct(cs, ax, ay, az, lx as int, ly as int, lz as int);
            }
        }
    }

    /// Run the stand-in terrain rule over every cell: afterwards each cell
    /// holds `terrain_voxel` of its world height.
    pub fn generate_data(&mut self)
        requires
            old(self).wf(),
        ensures
            final(self).wf(),
            final(self).position == old(self).position,
            final(self).chunk_size == old(self).chunk_size,
            final(self).out_of_bounds_voxels == old(self).out_of_bounds_voxels,
            final(self).needs_rebuild == old(self).needs_rebuild,
            !old(self).gpu_ready ==> !final(self).gpu_ready,
            forall|lx: int, ly: int, lz: int|
                final(self).in_bounds(lx, ly, lz) ==> final(self).voxel_at(lx, ly, lz)
                    == terrain_voxel(old(self).position.y * old(self).chunk_size + ly),
    {
        let cs = self.chunk_size;
        proof {
            lemma_world_base_bound(self.position.y as int, cs as int);
        }
        let base_y: i64 = (self.position.y as i64) * (cs as i64);
        let mut lx: usize = 0;
        while lx < cs
            invariant
                self.wf(),
                self.position == old(self).position,
                self.chunk_size == old(self).chunk_size,
                self.out_of_bounds_voxels == old(self).out_of_bounds_voxels,
                self.needs_rebuild == old(self).needs_rebuild,
                !old(self).gpu_ready ==> !self.gpu_ready,
                cs == self.chunk_size,
                base_y == self.position.y * cs,
                -0x200_0000_0000 <= base_y <= 0x200_0000_0000,
                lx <= cs,
                forall|ax: int, ay: int, az: int|
                    self.in_bounds(ax, ay, az) && ax < lx ==> self.voxel_at(ax, ay, az)
                        == terrain_voxel(self.position.y * cs + ay),
            decreases cs - lx,
        {
            let mut ly: usize = 0;
            while ly < cs
                invariant
                    self.wf(),
                    self.position == old(self).position,
                    self.chunk_size == old(self).chunk_size,
                    self.out_of_bounds_voxels == old(self).out_of_bounds_voxels,
                    self.needs_rebuild == old(self).needs_rebuild,
                    !old(self).gpu_ready ==> !self.gpu_ready,
                    cs == self.chunk_size,
                    base_y == self.position.y * cs,
                    -0x200_0000_0000 <= base_y <= 0x200_0000_0000,
                    lx < cs,
                    ly <= cs,
                    forall|ax: int, ay: int, az: int|
                        self.in_bounds(ax, ay, az) && ax < lx ==> self.voxel_at(ax, ay, az)
                            == terrain_voxel(self.position.y * cs + ay),
                    forall|ay: int, az: int|
                        self.in_bounds(lx as int, ay, az) && ay < ly ==> self.voxel_at(
                            lx as int,
                            ay,
                            az,
                        ) == terrain_voxel(self.position.y * cs + ay),
                decreases cs - ly,
            {
                let wy: i64 = base_y + ly as i64;
                let v = if wy < -1 {
                    VoxelType::Stone
                } else if wy == -1 {
                    VoxelType::Grass
                } else {
                    VoxelType::Air
                };
                let mut lz: usize = 0;
                while lz < cs
                    invariant
                        self.wf(),
                        self.position == old(self).position,
                        self.chunk_size == old(self).chunk_size,
                        self.out_of_bounds_voxels == old(self).out_of_bounds_voxels,
                        self.needs_rebuild == old(self).needs_rebuild,
                        !old(self).gpu_ready ==> !self.gpu_ready,
                        cs == self.chunk_size,
                        lx < cs,
                        ly < cs,
                        lz <= cs,
                        v == terrain_voxel(self.position.y * cs + ly),
                        forall|ax: int, ay: int, az: int|
                            self.in_bounds(ax, ay, az) && ax < lx ==> self.voxel_at(ax, ay, az)
                                == terrain_voxel(self.position.y * cs + ay),
                        forall|ay: int, az: int|
                            self.in_bounds(lx as int, ay, az) && ay < ly ==> self.voxel_at(
                                lx as int,
                                ay,
                                az,
                            ) == terrain_voxel(self.position.y * cs + ay),
                        forall|az: int|
                            0 <= az < lz ==> self.voxel_at(lx as int, ly as int, az)
                                == terrain_voxel(self.position.y * cs + ly),
                    decreases cs - lz,
                {
                    self.set_voxel(lx, ly, lz, v);
                    lz = lz + 1;
                }
                ly = ly + 1;
            }
            lx = lx + 1;
        }
    }

    /// Rebuild the CPU mesh from the grid: afterwards the mesh matches the
    /// voxels; the grid itself is untouched.
    pub fn prepare_mesh(&mut self)
        ensures
            *final(self) == (Chunk { mesh_ready: true, ..*old(self) }),
    {
        self.mesh_ready = true;
    }

    /// Push the CPU mesh to the GPU: afterwards the GPU copy matches the
    /// CPU mesh. Main-thread only in the full engine; here the flag is the
    /// model of that upload.
    pub fn upload_to_gpu(&mut self)
        ensures
            *final(self) == (Chunk { gpu_ready: true, ..*old(self) }),
    {
        self.gpu_ready = true;
    }

    /// True when every cell of the grid is `Air`.
    pub fn is_empty(&self) -> (r: bool)
        requires
            self.wf(),
        ensures
            r <==> forall|lx: int, ly: int, lz: int|
                self.in_bounds(lx, ly, lz) ==> self.voxel_at(lx, ly, lz) == VoxelType::Air,
    {
        self.grid_all(VoxelKindTest::OnlyAir)
    }

    /// True when no cell holds a transparent non-air voxel, so the
    /// transparent render pass has nothing to draw.
    pub fn is_transparent_empty(&self) -> (r: bool)
        requires
            self.wf(),
        ensures
            r <==> forall|lx: int, ly: int, lz: int|
                self.in_bounds(lx, ly, lz) ==> !(self.voxel_at(lx, ly, lz) != VoxelType::Air
                    && is_transparent_spec(self.voxel_at(lx, ly, lz))),
    {
        self.grid_all(VoxelKindTest::NoTransparentSolidless)
    }

    /// Scan the whole grid for the given per-cell condition.
    fn grid_all(&self, test: VoxelKindTest) -> (r: bool)
        requires
            self.wf(),
        ensures
            r <==> forall|lx: int, ly: int, lz: int|
                self.in_bounds(lx, ly, lz) ==> cell_passes(test, self.voxel_at(lx, ly, lz)),
    {
        let cs = self.chunk_size;
        let mut lx: usize = 0;
        while lx < cs
            invariant
                self.wf(),
                cs == self.chunk_size,
                lx <= cs,
                forall|ax: int, ay: int, az: int|
                    self.in_bounds(ax, ay, az) && ax < lx ==> cell_passes(
                        test,
                        self.voxel_at(ax, ay, az),
                    ),
            decreases cs - lx,
        {
            let mut ly: usize = 0;
            while ly < cs
                invariant
                    self.wf(),
                    cs == self.chunk_size,
                    lx < cs,
                    ly <= cs,
                    forall|ax: int, ay: int, az: int|
                        self.in_bounds(ax, ay, az) && ax < lx ==> cell_passes(
                            test,
                            self.voxel_at(ax, ay, az),
                        ),
                    forall|ay: int, az: int|
                        self.in_bounds(lx as int, ay, az) && ay < ly ==> cell_passes(
                            test,
                            self.voxel_at(lx as int, ay, az),
                        ),
                decreases cs - ly,
            {
                let mut lz: usize = 0;
                while lz < cs
                    invariant
                        self.wf(),
                        cs == self.chunk_size,
                        lx < cs,
                        ly < cs,
                        lz <= cs,
                        forall|ax: int, ay: int, az: int|
                            self.in_bounds(ax, ay, az) && ax < lx ==> cell_passes(
                                test,
                                self.voxel_at(ax, ay, az),
                            ),
                        forall|ay: int, az: int|
                            self.in_bounds(lx as int, ay, az) && ay < ly ==> cell_passes(
                                test,
                                self.voxel_at(lx as int, ay, az),
                            ),
                        forall|az: int|
                            0 <= az < lz ==> cell_passes(
                                test,
                                self.voxel_at(lx as int, ly as int, az),
                            ),
                    decreases cs - lz,
                {
                    let v = self.get_voxel(lx, ly, lz);
                    let ok = match test {
                        VoxelKindTest::OnlyAir => matches!(v, VoxelType::Air),
                        VoxelKindTest::NoTransparentSolidless => !(!matches!(v, VoxelType::Air)
                            && v.is_transparent()),
                    };
                    if !ok {
                        proof {
                            assert(self.in_bounds(lx as int, ly as int, lz as int));
                            assert(!cell_passes(test, self.voxel_at(lx as int, ly as int, lz as int)));
                        }
                        return false;
                    }
                    lz = lz + 1;
                }
                ly = ly + 1;
            }
            lx = lx + 1;
        }
        true
    }
}

/// Per-cell conditions `grid_all` can scan for.
enum VoxelKindTest {
    OnlyAir,
    NoTransparentSolidless,
}

/// What each `VoxelKindTest` asks of one cell.
spec fn cell_passes(test: VoxelKindTest, v: VoxelType) -> bool {
    match test {
        VoxelKindTest::OnlyAir => v == VoxelType::Air,
        VoxelKindTest::NoTransparentSolidless => !(v != VoxelType::Air && is_transparent_spec(v)),
    }
}

/// The transparent voxel types, as `VoxelType::is_transparent` reports
/// them.
pub open spec fn is_transparent_spec(v: VoxelType) -> bool {
    v == VoxelType::Air || v == VoxelType::Water || v == VoxelType::Ice || v == VoxelType::Glass
        || v == VoxelType::WalnutLeaves || v == VoxelType::SpruceLeaves || v
        == VoxelType::MahoganyLeaves
}

/// `chunk_size^3` stays within `usize` for any accepted edge length.
proof fn lemma_cube_bound(cs: int)
    requires
        1 <= cs <= MAX_CHUNK_SIZE,
    ensures
        cs * cs <= 0x10_0000,
        cs * cs * cs <= 0x4000_0000,
{
    assert(cs * cs <= 0x10_0000 && cs * cs * cs <= 0x4000_0000) by (nonlinear_arith)
        requires
            1 <= cs <= 1024,
    ;
}

/// Every in-bounds local cell maps to an index inside the grid.
proof fn lemma_chunk_index_bounds(cs: int, lx: int, ly: int, lz: int)
    requires
        1 <= cs <= MAX_CHUNK_SIZE,
        0 <= lx < cs,
        0 <= ly < cs,
        0 <= lz < cs,
    ensures
        0 <= lx * cs + ly < cs * cs,
        cs * cs <= 0x10_0000,
        0 <= chunk_index(cs, lx, ly, lz) < cs * cs * cs,
        chunk_index(cs, lx, ly, lz) < 0x4000_0000,
{
    assert(0 <= lx * cs + ly < cs * cs && cs * cs <= 0x10_0000 && 0 <= (lx * cs + ly) * cs + lz
        < cs * cs * cs) by (nonlinear_arith)
        requires
            1 <= cs <= 1024,
            0 <= lx < cs,
            0 <= ly < cs,
            0 <= lz < cs,
    ;
    lemma_cube_bound(cs);
}

/// The lowest world height of a chunk fits comfortably in 64 bits.
proof fn lemma_world_base_bound(py: int, cs: int)
    requires
        -0x8000_0000 <= py < 0x8000_0000,
        1 <= cs <= MAX_CHUNK_SIZE,
    ensures
        -0x200_0000_0000 <= py * cs <= 0x200_0000_0000,
{
    assert(-0x200_0000_0000 <= py * cs <= 0x200_0000_0000) by (nonlinear_arith)
        requires
            -0x8000_0000 <= py < 0x8000_0000,
            1 <= cs <= 1024,
    ;
}

/// Distinct in-bounds local cells map to distinct grid indexes.
proof fn lemma_chunk_index_distinct(cs: int, ax: int, ay: int, az: int, bx: int, by: int, bz: int)
    requires
        1 <= cs,
        0 <= ax < cs,
        0 <= ay < cs,
        0 <= az < cs,
        0 <= bx < cs,
        0 <= by < cs,
        0 <= bz < cs,
        !(ax == bx && ay == by && az == bz),
    ensures
        chunk_index(cs, ax, ay, az) != chunk_index(cs, bx, by, bz),
{
    if chunk_index(cs, ax, ay, az) == chunk_index(cs, bx, by, bz) {
        let ia = chunk_index(cs, ax, ay, az);
        lemma_fundamental_div_mod_converse_mod(ia, cs, ax * cs + ay, az);
        lemma_fundamental_div_mod_converse_div(ia, cs, ax * cs + ay, az);
        lemma_fundamental_div_mod_converse_mod(ia, cs, bx * cs + by, bz);
        lemma_fundamental_div_mod_converse_div(ia, cs, bx * cs + by, bz);
        let q = ia / cs;
        lemma_fundamental_div_mod_converse_mod(q, cs, ax, ay);
        lemma_fundamental_div_mod_converse_div(q, cs, ax, ay);
        lemma_fundamental_div_mod_converse_mod(q, cs, bx, by);
        lemma_fundamental_div_mod_converse_div(q, cs, bx, by);
        assert(false);
    }
}

} // verus!
