//! The streaming coordinator: main-thread state and the per-frame
//! protocol.
//!
//! The `World` owns the registry of resident chunks, the pending-edit
//! buffer, the pending-chunk set, and the two ends of the pool protocol:
//! a queue of work items it has dispatched and an inbox of finished
//! chunks. A driver (threads and channels, outside this crate) moves
//! items from `take_work` to `crate::work::perform_work` and hands each
//! finished chunk back through `deliver_chunk`; `process_chunk_updates`
//! then drains the inbox once per frame.

use vstd::arithmetic::div_mod::lemma_fundamental_div_mod;
use vstd::prelude::*;

use crate::chunk::{Chunk, MAX_CHUNK_SIZE};
use crate::coords::{chunk_axis, chebyshev, local_axis, ChunkPos};
use crate::pending::{PendingChunks, PendingVoxels};
use crate::registry::ChunkRegistry;
use crate::voxel::VoxelType;
use crate::work::{item_wf, WorkItem};

verus! {

/// Number of worker threads the pool is sized for.
pub const WORKER_COUNT: usize = 10;

/// With a chunk edge of at least 2, every chunk axis index leaves room
/// for its neighbors on both sides.
proof fn lemma_chunk_axis_half_range(w: int, cs: int)
    requires
        i32::MIN <= w <= i32::MAX,
        2 <= cs,
    ensures
        -0x4000_0000 <= w / cs <= 0x4000_0000,
{
    assert(-0x4000_0000 <= w / cs <= 0x4000_0000) by (nonlinear_arith)
        requires
            -0x8000_0000 <= w <= 0x7FFF_FFFF,
            2 <= cs,
    ;
}

/// Two world axis values on the same chunk axis and the same local
/// offset are the same value.
proof fn lemma_world_cell_injective(cs: int, a: int, b: int)
    requires
        cs >= 1,
        a / cs == b / cs,
        a % cs == b % cs,
    ensures
        a == b,
{
    lemma_fundamental_div_mod(a, cs);
    lemma_fundamental_div_mod(b, cs);
}

/// The chunk coordinate `center` shifted by an offset triple.
pub open spec fn offset_pos(center: ChunkPos, dx: int, dy: int, dz: int) -> ChunkPos {
    ChunkPos { x: (center.x + dx) as i32, y: (center.y + dy) as i32, z: (center.z + dz) as i32 }
}

/// The search ball of the scheduler: offsets within squared Euclidean
/// distance 25 of the center, the largest shell searched.
pub open spec fn in_search_ball(dx: int, dy: int, dz: int) -> bool {
    &&& -5 <= dx <= 5
    &&& -5 <= dy <= 5
    &&& -5 <= dz <= 5
    &&& crate::coords::dist_sq(dx, dy, dz) <= 25
}

/// Strict lexicographic order on offset triples: the enumeration order of
/// the scheduler's search (x outermost, z innermost).
pub open spec fn lex_before(ax: int, ay: int, az: int, bx: int, by: int, bz: int) -> bool {
    ||| ax < bx
    ||| (ax == bx && ay < by)
    ||| (ax == bx && ay == by && az < bz)
}

/// Invariant of the scheduler's scan: with the cursor at offset
/// `(cdx, cdy, cdz)` in enumeration order, `found`, `(bdx, bdy, bdz)` and
/// `bd` describe the best hole among the offsets already enumerated: none
/// if `found` is false, else the nearest one, first in enumeration order
/// among those at that distance.
pub open spec fn scan_state_ok(
    w: World,
    center: ChunkPos,
    found: bool,
    bdx: int,
    bdy: int,
    bdz: int,
    bd: int,
    cdx: int,
    cdy: int,
    cdz: int,
) -> bool {
    &&& (!found ==> bd == i32::MAX && (forall|ax: int, ay: int, az: int|
        in_search_ball(ax, ay, az) && lex_before(ax, ay, az, cdx, cdy, cdz) ==> !(
        #[trigger] w.missing_at(center, ax, ay, az))))
    &&& (found ==> {
        &&& in_search_ball(bdx, bdy, bdz)
        &&& w.missing_at(center, bdx, bdy, bdz)
        &&& bd == crate::coords::dist_sq(bdx, bdy, bdz)
        &&& lex_before(bdx, bdy, bdz, cdx, cdy, cdz)
        &&& forall|ax: int, ay: int, az: int|
            in_search_ball(ax, ay, az) && lex_before(ax, ay, az, cdx, cdy, cdz) && #[trigger] w.missing_at(
                center,
                ax,
                ay,
                az,
            ) ==> (bd < crate::coords::dist_sq(ax, ay, az) || (bd == crate::coords::dist_sq(
                ax,
                ay,
                az,
            ) && ((ax == bdx && ay == bdy && az == bdz) || lex_before(bdx, bdy, bdz, ax, ay, az))))
    })
}

/// True when some chunk of the inbox has position `q`.
pub open spec fn some_result_at(results: Seq<Chunk>, q: ChunkPos) -> bool {
    exists|i: int| 0 <= i < results.len() && (#[trigger] results[i]).position == q
}

/// The newest inbox chunk with position `q` (later results replace
/// earlier ones on insertion).
pub open spec fn last_result_at(results: Seq<Chunk>, q: ChunkPos) -> Chunk
    decreases results.len(),
{
    if results.len() == 0 {
        arbitrary()
    } else if results.last().position == q {
        results.last()
    } else {
        last_result_at(results.drop_last(), q)
    }
}

/// All out-of-bounds edits of the inbox chunks that target `q`, in drain
/// order: what one frame's drain re-routes into the buffer for `q`.
pub open spec fn rerouted(results: Seq<Chunk>, cs: int, q: ChunkPos) -> Seq<
    (i32, i32, i32, VoxelType),
>
    decreases results.len(),
{
    if results.len() == 0 {
        Seq::empty()
    } else {
        rerouted(results.drop_last(), cs, q) + crate::work::edits_toward(
            results.last().out_of_bounds_voxels@,
            cs,
            q,
        )
    }
}

/// Peeling one inbox chunk off the front of the drain: how the three
/// folds over the inbox grow.
proof fn lemma_results_take_step(results: Seq<Chunk>, j: int, cs: int)
    requires
        0 <= j < results.len(),
    ensures
        forall|q: ChunkPos|
            #[trigger] some_result_at(results.take(j + 1), q) <==> (some_result_at(
                results.take(j),
                q,
            ) || results[j].position == q),
        forall|q: ChunkPos|
            #[trigger] last_result_at(results.take(j + 1), q) == (if results[j].position == q {
                results[j]
            } else {
                last_result_at(results.take(j), q)
            }),
        forall|q: ChunkPos|
            #[trigger] rerouted(results.take(j + 1), cs, q) == rerouted(results.take(j), cs, q)
                + crate::work::edits_toward(results[j].out_of_bounds_voxels@, cs, q),
{
    crate::work::lemma_take_step(results, j);
    assert(results.take(j + 1).drop_last() == results.take(j));
    assert(results.take(j + 1).last() == results[j]);
    assert forall|q: ChunkPos|
        #[trigger] some_result_at(results.take(j + 1), q) <==> (some_result_at(results.take(j), q)
            || results[j].position == q) by {
        if some_result_at(results.take(j + 1), q) {
            let i = choose|i: int|
                0 <= i < results.take(j + 1).len() && (#[trigger] results.take(j + 1)[i]).position
                    == q;
            if i < j {
                assert(results.take(j)[i] == results.take(j + 1)[i]);
            }
        }
        if some_result_at(results.take(j), q) {
            let i = choose|i: int|
                0 <= i < results.take(j).len() && (#[trigger] results.take(j)[i]).position == q;
            assert(results.take(j + 1)[i] == results.take(j)[i]);
        }
        if results[j].position == q {
            assert(results.take(j + 1)[j] == results[j]);
        }
    }
}

/// The chunk streaming coordinator.
pub struct World {
    /// Edge length of every chunk.
    pub chunk_size: usize,
    /// World seed, handed to the terrain generator collaborator.
    pub seed: u32,
    /// Resident chunks.
    pub registry: ChunkRegistry,
    /// Edits waiting for a chunk that is not resident yet.
    pub pending_voxels: PendingVoxels,
    /// Coordinates whose generation request is outstanding.
    pub pending_chunks: PendingChunks,
    /// Work dispatched to the pool, oldest first.
    pub work_queue: Vec<WorkItem>,
    /// Finished chunks handed back by the pool, oldest first.
    pub results: Vec<Chunk>,
    /// Number of worker threads serving the queue.
    pub worker_count: usize,
}

impl World {
    /// Well-formedness of the whole coordinator state.
    pub open spec fn wf(self) -> bool {
        &&& 2 <= self.chunk_size <= MAX_CHUNK_SIZE
        &&& self.registry.wf()
        &&& forall|p: ChunkPos|
            self.registry.resident(p) ==> (#[trigger] self.registry.chunk_at(p)).wf()
                && self.registry.chunk_at(p).chunk_size == self.chunk_size
        &&& self.pending_voxels.wf()
        &&& self.pending_chunks.wf()
        &&& forall|i: int|
            0 <= i < self.work_queue@.len() ==> item_wf(
                #[trigger] self.work_queue@[i],
                self.chunk_size as int,
            )
        &&& forall|i: int|
            0 <= i < self.results@.len() ==> (#[trigger] self.results@[i]).wf()
                && self.results@[i].chunk_size == self.chunk_size
    }

    /// The chunk coordinate that contains the world position.
    pub open spec fn target_chunk(self, wx: int, wy: int, wz: int) -> ChunkPos {
        let cs = self.chunk_size as int;
        ChunkPos {
            x: chunk_axis(wx, cs) as i32,
            y: chunk_axis(wy, cs) as i32,
            z: chunk_axis(wz, cs) as i32,
        }
    }

    /// The voxel visible at a world position: the resident chunk's cell,
    /// or `Air` where no chunk is resident (unloaded or in flight).
    pub open spec fn world_voxel(self, wx: int, wy: int, wz: int) -> VoxelType {
        let p = self.target_chunk(wx, wy, wz);
        if self.registry.resident(p) {
            self.registry.chunk_at(p).voxel_at_world(wx, wy, wz)
        } else {
            VoxelType::Air
        }
    }

    /// A fresh coordinator: nothing resident, nothing pending, nothing
    /// queued. The pool is sized for `WORKER_COUNT` workers.
    pub fn new(chunk_size: usize, seed: u32) -> (w: World)
        requires
            2 <= chunk_size <= MAX_CHUNK_SIZE,
        ensures
            w.wf(),
            w.chunk_size == chunk_size,
            w.seed == seed,
            w.worker_count == WORKER_COUNT,
            forall|p: ChunkPos| !w.registry.resident(p),
            forall|p: ChunkPos| !w.pending_voxels.has_patch(p),
            forall|p: ChunkPos| !w.pending_chunks.is_pending(p),
            w.work_queue@.len() == 0,
            w.results@.len() == 0,
    {
        World {
            chunk_size,
            seed,
            registry: ChunkRegistry::new(),
            pending_voxels: PendingVoxels::new(),
            pending_chunks: PendingChunks::new(),
            work_queue: Vec::new(),
            results: Vec::new(),
            worker_count: WORKER_COUNT,
        }
    }

    /// The voxel at a world position; never fails, `Air` stands for
    /// "nothing loaded here".
    pub fn get_voxel(&self, wx: i32, wy: i32, wz: i32) -> (v: VoxelType)
        requires
            self.wf(),
        ensures
            v == self.world_voxel(wx as int, wy as int, wz as int),
    {
        let cs = self.chunk_size as i32;
        let p = crate::coords::world_to_chunk(wx, wy, wz, cs);
        match self.registry.get(p) {
            Some(c) => {
                let lx = crate::coords::world_to_local_axis(wx, cs);
                let ly = crate::coords::world_to_local_axis(wy, cs);
                let lz = crate::coords::world_to_local_axis(wz, cs);
                c.get_voxel(lx, ly, lz)
            },
            None => VoxelType::Air,
        }
    }

    /// Dispatch generation of the chunk at `(cx, cy, cz)`, handing any
    /// buffered edits for that coordinate along as seed edits; the buffer
    /// entry is drained by this call.
    pub fn create_chunk(&mut self, cx: i32, cy: i32, cz: i32)
        requires
            old(self).wf(),
        ensures
            final(self).wf(),
            final(self).chunk_size == old(self).chunk_size,
            final(self).seed == old(self).seed,
            final(self).worker_count == old(self).worker_count,
            final(self).registry == old(self).registry,
            final(self).pending_chunks == old(self).pending_chunks,
            final(self).results == old(self).results,
            ({
                let p = (ChunkPos { x: cx, y: cy, z: cz });
                &&& forall|q: ChunkPos|
                    final(self).pending_voxels.has_patch(q) <==> (old(self).pending_voxels.has_patch(q) && q != p)
                &&& forall|q: ChunkPos|
                    q != p && old(self).pending_voxels.has_patch(q) ==> final(self).pending_voxels.patch_at(q) == old(self).pending_voxels.patch_at(q)
                &&& final(self).work_queue@.len() == old(self).work_queue@.len() + 1
                &&& forall|i: int|
                    0 <= i < old(self).work_queue@.len() ==> final(self).work_queue@[i] == old(self).work_queue@[i]
                &&& (match final(self).work_queue@.last() {
                    WorkItem::Generate { position, seed_edits } => {
                        &&& position == p
                        &&& (match seed_edits {
                            Some(v) => old(self).pending_voxels.has_patch(p) && v@ == old(self).pending_voxels.patch_at(p),
                            None => !old(self).pending_voxels.has_patch(p),
                        })
                    },
                    _ => false,
                })
            }),
    {
        let p = ChunkPos { x: cx, y: cy, z: cz };
        let pending = self.pending_voxels.remove(p);
        self.work_queue.push(WorkItem::Generate { position: p, seed_edits: pending });
    }

    /// Hand the resident chunk at `(cx, cy, cz)` to the pool for a mesh
    /// rebuild; it leaves the registry until the result is drained. A
    /// coordinate with no resident chunk is left alone.
    pub fn request_remesh(&mut self, cx: i32, cy: i32, cz: i32)
        requires
            old(self).wf(),
        ensures
            final(self).wf(),
            final(self).chunk_size == old(self).chunk_size,
            final(self).seed == old(self).seed,
            final(self).worker_count == old(self).worker_count,
            final(self).pending_voxels == old(self).pending_voxels,
            final(self).pending_chunks == old(self).pending_chunks,
            final(self).results == old(self).results,
            ({
                let p = (ChunkPos { x: cx, y: cy, z: cz });
                &&& forall|q: ChunkPos|
                    final(self).registry.resident(q) <==> (old(self).registry.resident(q) && q
                        != p)
                &&& forall|q: ChunkPos|
                    q != p && old(self).registry.resident(q) ==> final(self).registry.chunk_at(q)
                        == old(self).registry.chunk_at(q)
                &&& (if old(self).registry.resident(p) {
                    &&& final(self).work_queue@.len() == old(self).work_queue@.len() + 1
                    &&& forall|i: int|
                        0 <= i < old(self).work_queue@.len() ==> final(self).work_queue@[i] == old(self).work_queue@[i]
                    &&& final(self).work_queue@.last() == (WorkItem::Remesh {
                        chunk: old(self).registry.chunk_at(p),
                    })
                } else {
                    final(self).work_queue == old(self).work_queue
                })
            }),
    {
        let p = ChunkPos { x: cx, y: cy, z: cz };
        match self.registry.remove(p) {
            Some(chunk) => {
                self.work_queue.push(WorkItem::Remesh { chunk });
            },
            None => {},
        }
    }

    /// Rebuild and re-upload the mesh of the resident chunk at
    /// `(cx, cy, cz)` synchronously, in place; reports whether a chunk was
    /// there.
    pub fn remesh_now(&mut self, cx: i32, cy: i32, cz: i32) -> (r: bool)
        requires
            old(self).wf(),
        ensures
            final(self).wf(),
            final(self).chunk_size == old(self).chunk_size,
            final(self).seed == old(self).seed,
            final(self).worker_count == old(self).worker_count,
            final(self).pending_voxels == old(self).pending_voxels,
            final(self).pending_chunks == old(self).pending_chunks,
            final(self).work_queue == old(self).work_queue,
            final(self).results == old(self).results,
            r == old(self).registry.resident(ChunkPos { x: cx, y: cy, z: cz }),
            ({
                let p = (ChunkPos { x: cx, y: cy, z: cz });
                &&& forall|q: ChunkPos|
                    final(self).registry.resident(q) <==> old(self).registry.resident(q)
                &&& forall|q: ChunkPos|
                    q != p && old(self).registry.resident(q) ==> final(self).registry.chunk_at(q)
                        == old(self).registry.chunk_at(q)
                &&& (old(self).registry.resident(p) ==> final(self).registry.chunk_at(p) == (Chunk {
                    mesh_ready: true,
                    gpu_ready: true,
                    ..old(self).registry.chunk_at(p)
                }))
            }),
    {
        let p = ChunkPos { x: cx, y: cy, z: cz };
        match self.registry.remove(p) {
            Some(mut chunk) => {
                chunk.prepare_mesh();
                chunk.upload_to_gpu();
                self.registry.insert(chunk);
                true
            },
            None => false,
        }
    }

    /// True when `q` is the resident-or-not neighbor chunk across a
    /// boundary plane that the world position `(wx, wy, wz)` lies on:
    /// editing a border voxel changes face culling in that neighbor.
    pub open spec fn sync_border_neighbor(self, wx: int, wy: int, wz: int, q: ChunkPos) -> bool {
        let cs = self.chunk_size as int;
        let p = self.target_chunk(wx, wy, wz);
        ||| (local_axis(wx, cs) == 0 && q == (ChunkPos { x: (p.x - 1) as i32, y: p.y, z: p.z }))
        ||| (local_axis(wx, cs) == cs - 1 && q == (ChunkPos {
            x: (p.x + 1) as i32,
            y: p.y,
            z: p.z,
        }))
        ||| (local_axis(wy, cs) == 0 && q == (ChunkPos { x: p.x, y: (p.y - 1) as i32, z: p.z }))
        ||| (local_axis(wy, cs) == cs - 1 && q == (ChunkPos {
            x: p.x,
            y: (p.y + 1) as i32,
            z: p.z,
        }))
        ||| (local_axis(wz, cs) == 0 && q == (ChunkPos { x: p.x, y: p.y, z: (p.z - 1) as i32 }))
        ||| (local_axis(wz, cs) == cs - 1 && q == (ChunkPos {
            x: p.x,
            y: p.y,
            z: (p.z + 1) as i32,
        }))
    }

    /// Rebuild and re-upload, in place, every resident neighbor chunk
    /// across a boundary plane that the world position lies on. The
    /// voxel grids and everything else stay as they are.
    fn remesh_border_neighbors(&mut self, wx: i32, wy: i32, wz: i32)
        requires
            old(self).wf(),
        ensures
            final(self).wf(),
            final(self).chunk_size == old(self).chunk_size,
            final(self).seed == old(self).seed,
            final(self).worker_count == old(self).worker_count,
            final(self).pending_voxels == old(self).pending_voxels,
            final(self).pending_chunks == old(self).pending_chunks,
            final(self).work_queue == old(self).work_queue,
            final(self).results == old(self).results,
            forall|q: ChunkPos|
                final(self).registry.resident(q) <==> old(self).registry.resident(q),
            forall|q: ChunkPos|
                old(self).registry.resident(q) ==> final(self).registry.chunk_at(q) == (if old(self).sync_border_neighbor(wx as int, wy as int, wz as int, q) {
                    Chunk { mesh_ready: true, gpu_ready: true, ..old(self).registry.chunk_at(q) }
                } else {
                    old(self).registry.chunk_at(q)
                }),
    {
        let ghost pre = *self;
        let cs = self.chunk_size as i32;
        let p = crate::coords::world_to_chunk(wx, wy, wz, cs);
        let lx = crate::coords::world_to_local_axis(wx, cs);
        let ly = crate::coords::world_to_local_axis(wy, cs);
        let lz = crate::coords::world_to_local_axis(wz, cs);
        proof {
            lemma_chunk_axis_half_range(wx as int, cs as int);
            lemma_chunk_axis_half_range(wy as int, cs as int);
            lemma_chunk_axis_half_range(wz as int, cs as int);
        }
        if lx == 0 {
            self.remesh_now(p.x - 1, p.y, p.z);
        }
        if lx == self.chunk_size - 1 {
            self.remesh_now(p.x + 1, p.y, p.z);
        }
        if ly == 0 {
            self.remesh_now(p.x, p.y - 1, p.z);
        }
        if ly == self.chunk_size - 1 {
            self.remesh_now(p.x, p.y + 1, p.z);
        }
        if lz == 0 {
            self.remesh_now(p.x, p.y, p.z - 1);
        }
        if lz == self.chunk_size - 1 {
            self.remesh_now(p.x, p.y, p.z + 1);
        }
    }

    /// Synchronous single-voxel edit for direct player interaction: write
    /// the voxel in place, rebuild and re-upload the chunk's mesh at once,
    /// and do the same for any resident neighbor across a touched boundary
    /// plane. Returns false (and changes no voxel) when the target chunk
    /// is not resident.
    #[verifier::rlimit(100)]
    #[verifier::spinoff_prover]
    pub fn set_voxel_main_thread(&mut self, wx: i32, wy: i32, wz: i32, voxel_type: VoxelType) -> (r:
        bool)
        requires
            old(self).wf(),
        ensures
            final(self).wf(),
            final(self).chunk_size == old(self).chunk_size,
            final(self).seed == old(self).seed,
            final(self).worker_count == old(self).worker_count,
            final(self).pending_voxels == old(self).pending_voxels,
            final(self).pending_chunks == old(self).pending_chunks,
            final(self).work_queue == old(self).work_queue,
            final(self).results == old(self).results,
            r == old(self).registry.resident(
                old(self).target_chunk(wx as int, wy as int, wz as int),
            ),
            forall|q: ChunkPos|
                final(self).registry.resident(q) <==> old(self).registry.resident(q),
            forall|x: int, y: int, z: int|
                i32::MIN <= x <= i32::MAX && i32::MIN <= y <= i32::MAX && i32::MIN <= z
                    <= i32::MAX ==> final(self).world_voxel(x, y, z) == (if r && x == wx as int && y
                    == wy as int && z == wz as int {
                    voxel_type
                } else {
                    old(self).world_voxel(x, y, z)
                }),
            r ==> final(self).registry.chunk_at(
                old(self).target_chunk(wx as int, wy as int, wz as int),
            ).mesh_ready && final(self).registry.chunk_at(
                old(self).target_chunk(wx as int, wy as int, wz as int),
            ).gpu_ready,
            forall|q: ChunkPos|
                q != old(self).target_chunk(wx as int, wy as int, wz as int) && old(self).registry.resident(q) ==> final(self).registry.chunk_at(q) == (if old(self).sync_border_neighbor(wx as int, wy as int, wz as int, q) {
                    Chunk { mesh_ready: true, gpu_ready: true, ..old(self).registry.chunk_at(q) }
                } else {
                    old(self).registry.chunk_at(q)
                }),
    {
        let ghost pre = *self;
        let cs = self.chunk_size as i32;
        let p = crate::coords::world_to_chunk(wx, wy, wz, cs);
        let lx = crate::coords::world_to_local_axis(wx, cs);
        let ly = crate::coords::world_to_local_axis(wy, cs);
        let lz = crate::coords::world_to_local_axis(wz, cs);
        proof {
            lemma_chunk_axis_half_range(wx as int, cs as int);
            lemma_chunk_axis_half_range(wy as int, cs as int);
            lemma_chunk_axis_half_range(wz as int, cs as int);
        }
        let updated = match self.registry.remove(p) {
            Some(mut c) => {
                c.set_voxel(lx, ly, lz, voxel_type);
                c.prepare_mesh();
                c.upload_to_gpu();
                self.registry.insert(c);
                true
            },
            None => false,
        };
        let ghost mid = *self;
        self.remesh_border_neighbors(wx, wy, wz);
        proof {
            let csi = pre.chunk_size as int;
            assert(mid.sync_border_neighbor(wx as int, wy as int, wz as int, p) == pre.sync_border_neighbor(wx as int, wy as int, wz as int, p));
            assert forall|q: ChunkPos|
                q != p && pre.registry.resident(q) implies self.registry.chunk_at(q) == (
            if pre.sync_border_neighbor(wx as int, wy as int, wz as int, q) {
                Chunk { mesh_ready: true, gpu_ready: true, ..pre.registry.chunk_at(q) }
            } else {
                pre.registry.chunk_at(q)
            }) by {
                assert(mid.registry.chunk_at(q) == pre.registry.chunk_at(q));
            }
            assert(!pre.sync_border_neighbor(wx as int, wy as int, wz as int, p));
            if updated {
                assert(self.registry.chunk_at(p) == mid.registry.chunk_at(p));
            }
            assert forall|x: int, y: int, z: int|
                i32::MIN <= x <= i32::MAX && i32::MIN <= y <= i32::MAX && i32::MIN <= z
                    <= i32::MAX implies self.world_voxel(x, y, z) == (if updated && x == wx as int
                && y == wy as int && z == wz as int {
                    voxel_type
                } else {
                    pre.world_voxel(x, y, z)
                }) by {
                let q = pre.target_chunk(x, y, z);
                assert(self.target_chunk(x, y, z) == q);
                if pre.registry.resident(q) {
                    if q == p {
                        if updated {
                            if x == wx as int && y == wy as int && z == wz as int {
                                assert(self.registry.chunk_at(p).voxel_at_world(x, y, z)
                                    == voxel_type);
                            } else {
                                if local_axis(x, csi) == local_axis(wx as int, csi) && local_axis(
                                    y,
                                    csi,
                                ) == local_axis(wy as int, csi) && local_axis(z, csi)
                                    == local_axis(wz as int, csi) {
                                    lemma_chunk_axis_half_range(x, csi);
                                    lemma_chunk_axis_half_range(wx as int, csi);
                                    lemma_chunk_axis_half_range(y, csi);
                                    lemma_chunk_axis_half_range(wy as int, csi);
                                    lemma_chunk_axis_half_range(z, csi);
                                    lemma_chunk_axis_half_range(wz as int, csi);
                                    lemma_world_cell_injective(csi, x, wx as int);
                                    lemma_world_cell_injective(csi, y, wy as int);
                                    lemma_world_cell_injective(csi, z, wz as int);
                                    assert(false);
                                }
                            }
                        }
                    } else {
                        assert(self.registry.chunk_at(q).voxels == pre.registry.chunk_at(q).voxels);
                        assert(self.registry.chunk_at(q).chunk_size == pre.registry.chunk_at(
                            q,
                        ).chunk_size);
                    }
                } else {
                    assert(!self.registry.resident(q));
                    if updated && x == wx as int && y == wy as int && z == wz as int {
                        assert(q == p);
                        assert(false);
                    }
                }
            }
        }
        updated
    }

    /// Asynchronous single-voxel edit: hand the target chunk to the pool
    /// together with the edit. The chunk leaves the registry until the
    /// modified result is drained; returns false (and does nothing) when
    /// the target chunk is not resident.
    pub fn set_voxel_async(&mut self, wx: i32, wy: i32, wz: i32, voxel_type: VoxelType) -> (r: bool)
        requires
            old(self).wf(),
        ensures
            final(self).wf(),
            final(self).chunk_size == old(self).chunk_size,
            final(self).seed == old(self).seed,
            final(self).worker_count == old(self).worker_count,
            final(self).pending_voxels == old(self).pending_voxels,
            final(self).pending_chunks == old(self).pending_chunks,
            final(self).results == old(self).results,
            r == old(self).registry.resident(
                old(self).target_chunk(wx as int, wy as int, wz as int),
            ),
            ({
                let p = old(self).target_chunk(wx as int, wy as int, wz as int);
                &&& forall|q: ChunkPos|
                    final(self).registry.resident(q) <==> (old(self).registry.resident(q) && q
                        != p)
                &&& forall|q: ChunkPos|
                    q != p && old(self).registry.resident(q) ==> final(self).registry.chunk_at(q)
                        == old(self).registry.chunk_at(q)
                &&& (if r {
                    &&& final(self).work_queue@.len() == old(self).work_queue@.len() + 1
                    &&& forall|i: int|
                        0 <= i < old(self).work_queue@.len() ==> final(self).work_queue@[i] == old(self).work_queue@[i]
                    &&& final(self).work_queue@.last() == (WorkItem::ModifyVoxel {
                        chunk: old(self).registry.chunk_at(p),
                        wx,
                        wy,
                        wz,
                        voxel_type,
                    })
                } else {
                    final(self).work_queue == old(self).work_queue
                })
            }),
    {
        let cs = self.chunk_size as i32;
        let p = crate::coords::world_to_chunk(wx, wy, wz, cs);
        match self.registry.remove(p) {
            Some(chunk) => {
                self.work_queue.push(WorkItem::ModifyVoxel { chunk, wx, wy, wz, voxel_type });
                true
            },
            None => false,
        }
    }

    /// Bulk asynchronous edit for procedural placement that may span many
    /// chunks. Every resident chunk that one of the offset-shifted edits
    /// falls into leaves the registry and is handed to the pool with the
    /// whole batch; edits whose chunk is not resident are not buffered
    /// here (unlike generation seeding) and are lost with the batch.
    pub fn load_voxels_world_async(
        &mut self,
        voxels: Vec<(i32, i32, i32, VoxelType)>,
        offset: (i32, i32, i32),
    )
        requires
            old(self).wf(),
            forall|i: int|
                0 <= i < voxels@.len() ==> crate::work::edit_fits(
                    voxels@[i],
                    offset.0 as int,
                    offset.1 as int,
                    offset.2 as int,
                ),
        ensures
            final(self).wf(),
            final(self).chunk_size == old(self).chunk_size,
            final(self).seed == old(self).seed,
            final(self).worker_count == old(self).worker_count,
            final(self).pending_voxels == old(self).pending_voxels,
            final(self).pending_chunks == old(self).pending_chunks,
            final(self).results == old(self).results,
            voxels@.len() == 0 ==> final(self).registry == old(self).registry && final(self).work_queue == old(self).work_queue,
            ({
                let ox = offset.0 as int;
                let oy = offset.1 as int;
                let oz = offset.2 as int;
                let cs = old(self).chunk_size as int;
                voxels@.len() > 0 ==> {
                    &&& forall|q: ChunkPos|
                        final(self).registry.resident(q) <==> (old(self).registry.resident(q)
                            && !crate::work::some_edit_targets(voxels@, ox, oy, oz, cs, q))
                    &&& forall|q: ChunkPos|
                        old(self).registry.resident(q) && !crate::work::some_edit_targets(
                            voxels@,
                            ox,
                            oy,
                            oz,
                            cs,
                            q,
                        ) ==> final(self).registry.chunk_at(q) == old(self).registry.chunk_at(q)
                    &&& final(self).work_queue@.len() == old(self).work_queue@.len() + 1
                    &&& forall|i: int|
                        0 <= i < old(self).work_queue@.len() ==> final(self).work_queue@[i] == old(self).work_queue@[i]
                    &&& (match final(self).work_queue@.last() {
                        WorkItem::ModifyVoxelsBatch { updates, offset: off, chunks } => {
                            &&& updates@ == voxels@
                            &&& off == offset
                            &&& forall|j: int|
                                0 <= j < chunks@.len() ==> old(self).registry.resident(
                                    (#[trigger] chunks@[j]).position,
                                ) && chunks@[j] == old(self).registry.chunk_at(chunks@[j].position)
                                    && crate::work::some_edit_targets(
                                    voxels@,
                                    ox,
                                    oy,
                                    oz,
                                    cs,
                                    chunks@[j].position,
                                )
                            &&& forall|q: ChunkPos|
                                old(self).registry.resident(q) && crate::work::some_edit_targets(
                                    voxels@,
                                    ox,
                                    oy,
                                    oz,
                                    cs,
                                    q,
                                ) ==> (exists|j: int|
                                    0 <= j < chunks@.len() && (#[trigger] chunks@[j]).position == q)
                        },
                        _ => false,
                    })
                }
            }),
    {
        if voxels.len() == 0 {
            return ;
        }
        let ghost pre = *self;
        let ghost ox = offset.0 as int;
        let ghost oy = offset.1 as int;
        let ghost oz = offset.2 as int;
        let ghost cs = self.chunk_size as int;
        proof {
            assert forall|q: ChunkPos|
                !crate::work::some_edit_targets(voxels@.take(0), ox, oy, oz, cs, q) by {
                reveal(crate::work::some_edit_targets);
            }
        }
        let cs_exec = self.chunk_size as i32;
        let mut chunk_vec: Vec<Chunk> = Vec::new();
        let n = voxels.len();
        let mut i: usize = 0;
        while i < n
            invariant
                self.chunk_size == pre.chunk_size,
                self.seed == pre.seed,
                self.worker_count == pre.worker_count,
                self.pending_voxels == pre.pending_voxels,
                self.pending_chunks == pre.pending_chunks,
                self.work_queue == pre.work_queue,
                self.results == pre.results,
                pre.wf(),
                self.registry.wf(),
                forall|p: ChunkPos|
                    self.registry.resident(p) ==> (#[trigger] self.registry.chunk_at(p)).wf()
                        && self.registry.chunk_at(p).chunk_size == self.chunk_size,
                cs_exec == pre.chunk_size as i32,
                cs == pre.chunk_size as int,
                ox == offset.0 as int && oy == offset.1 as int && oz == offset.2 as int,
                n == voxels@.len(),
                i <= n,
                forall|k: int| 0 <= k < voxels@.len() ==> crate::work::edit_fits(voxels@[k], ox, oy, oz),
                forall|q: ChunkPos| #![trigger self.registry.resident(q)]
                    self.registry.resident(q) <==> (pre.registry.resident(q)
                        && !crate::work::some_edit_targets(voxels@.take(i as int), ox, oy, oz, cs, q)),
                forall|q: ChunkPos|
                    self.registry.resident(q) ==> self.registry.chunk_at(q)
                        == pre.registry.chunk_at(q),
                forall|j: int|
                    0 <= j < chunk_vec@.len() ==> pre.registry.resident(
                        (#[trigger] chunk_vec@[j]).position,
                    ) && chunk_vec@[j] == pre.registry.chunk_at(chunk_vec@[j].position)
                        && crate::work::some_edit_targets(
                        voxels@.take(i as int),
                        ox,
                        oy,
                        oz,
                        cs,
                        chunk_vec@[j].position,
                    ),
                forall|q: ChunkPos|
                    pre.registry.resident(q) && crate::work::some_edit_targets(
                        voxels@.take(i as int),
                        ox,
                        oy,
                        oz,
                        cs,
                        q,
                    ) ==> (exists|j: int|
                        0 <= j < chunk_vec@.len() && (#[trigger] chunk_vec@[j]).position == q),
                forall|j1: int, j2: int|
                    0 <= j1 < j2 < chunk_vec@.len() ==> chunk_vec@[j1].position
                        != chunk_vec@[j2].position,
            decreases n - i,
        {
            let e = voxels[i];
            let wx = e.0 + offset.0;
            let wy = e.1 + offset.1;
            let wz = e.2 + offset.2;
            let p = crate::coords::world_to_chunk(wx, wy, wz, cs_exec);
            proof {
                crate::work::lemma_take_step_edits(voxels@, i as int);
                assert(crate::work::edit_target(voxels@[i as int], ox, oy, oz, cs) == p);
                crate::work::lemma_some_edit_targets_step(voxels@, i as int, ox, oy, oz, cs);
                crate::work::lemma_some_edit_targets_within(voxels@, i as int, ox, oy, oz, cs);
            }
            let ghost chunk_vec_pre = chunk_vec@;
            let ghost reg_pre = self.registry;
            match self.registry.remove(p) {
                Some(c) => {
                    proof {
                        assert(c.position == p);
                        assert(reg_pre.resident(p));
                        assert(reg_pre.resident(p) <==> (pre.registry.resident(p)
                            && !crate::work::some_edit_targets(
                            voxels@.take(i as int),
                            ox,
                            oy,
                            oz,
                            cs,
                            p,
                        )));
                        assert(pre.registry.resident(p));
                        assert forall|j: int|
                            0 <= j < chunk_vec_pre.len() implies chunk_vec_pre[j].position
                            != p by {
                            assert(crate::work::some_edit_targets(
                                voxels@.take(i as int),
                                ox,
                                oy,
                                oz,
                                cs,
                                chunk_vec_pre[j].position,
                            ));
                        }
                    }
                    chunk_vec.push(c);
                    proof {
                        let n_cv = chunk_vec@.len() - 1;
                        assert(chunk_vec@[n_cv] == c);
                        assert forall|q: ChunkPos|
                            pre.registry.resident(q) && crate::work::some_edit_targets(
                                voxels@.take(i as int + 1),
                                ox,
                                oy,
                                oz,
                                cs,
                                q,
                            ) implies (exists|j: int|
                                0 <= j < chunk_vec@.len() && (#[trigger] chunk_vec@[j]).position
                                    == q) by {
                            if crate::work::some_edit_targets(
                                voxels@.take(i as int),
                                ox,
                                oy,
                                oz,
                                cs,
                                q,
                            ) {
                                let j = choose|j: int|
                                    0 <= j < chunk_vec_pre.len() && (#[trigger] chunk_vec_pre[j]).position
                                        == q;
                                assert(chunk_vec@[j].position == q);
                            } else {
                                assert(q == p);
                                assert(chunk_vec@[n_cv].position == q);
                            }
                        }
                    }
                },
                None => {
                    proof {
                        assert(!reg_pre.resident(p));
                        assert forall|q: ChunkPos|
                            pre.registry.resident(q) && crate::work::some_edit_targets(
                                voxels@.take(i as int + 1),
                                ox,
                                oy,
                                oz,
                                cs,
                                q,
                            ) implies (exists|j: int|
                                0 <= j < chunk_vec@.len() && (#[trigger] chunk_vec@[j]).position
                                    == q) by {
                            if crate::work::some_edit_targets(
                                voxels@.take(i as int),
                                ox,
                                oy,
                                oz,
                                cs,
                                q,
                            ) {
                                assert(exists|j: int|
                                    0 <= j < chunk_vec@.len() && (#[trigger] chunk_vec@[j]).position
                                        == q);
                            } else {
                                assert(q == p);
                                assert(pre.registry.resident(p));
                                assert(reg_pre.resident(p));
                                assert(false);
                            }
                        }
                    }
                },
            }
            proof {
                assert forall|q: ChunkPos| #![trigger self.registry.resident(q)]
                    self.registry.resident(q) <==> (pre.registry.resident(q)
                        && !crate::work::some_edit_targets(
                        voxels@.take(i as int + 1),
                        ox,
                        oy,
                        oz,
                        cs,
                        q,
                    )) by {
                    assert(reg_pre.resident(q) <==> (pre.registry.resident(q)
                        && !crate::work::some_edit_targets(voxels@.take(i as int), ox, oy, oz, cs, q)));
                    if q == p {
                        assert(crate::work::edit_target(voxels@[i as int], ox, oy, oz, cs) == q);
                        assert(crate::work::some_edit_targets(
                            voxels@.take(i as int + 1),
                            ox,
                            oy,
                            oz,
                            cs,
                            q,
                        ));
                        assert(!self.registry.resident(q));
                    }
                }
            }
            i = i + 1;
        }
        proof {
            assert(voxels@.take(n as int) =~= voxels@);
            assert(voxels@.take(n as int) == voxels@);
        }
        self.work_queue.push(
            WorkItem::ModifyVoxelsBatch { updates: voxels, offset, chunks: chunk_vec },
        );
    }

    /// Next work item for a pool worker, oldest first; `None` when the
    /// queue is empty (a real worker blocks here instead).
    pub fn take_work(&mut self) -> (r: Option<WorkItem>)
        requires
            old(self).wf(),
        ensures
            final(self).wf(),
            final(self).chunk_size == old(self).chunk_size,
            final(self).seed == old(self).seed,
            final(self).worker_count == old(self).worker_count,
            final(self).registry == old(self).registry,
            final(self).pending_voxels == old(self).pending_voxels,
            final(self).pending_chunks == old(self).pending_chunks,
            final(self).results == old(self).results,
            (match r {
                Some(item) => old(self).work_queue@.len() > 0 && item == old(self).work_queue@[0]
                    && final(self).work_queue@ == old(self).work_queue@.skip(1) && item_wf(
                    item,
                    old(self).chunk_size as int,
                ),
                None => old(self).work_queue@.len() == 0 && final(self).work_queue == old(self).work_queue,
            }),
    {
        if self.work_queue.len() == 0 {
            None
        } else {
            let item = self.work_queue.remove(0);
            proof {
                assert(final(self).work_queue@ =~= old(self).work_queue@.skip(1));
            }
            Some(item)
        }
    }

    /// Accept one finished chunk from the pool into the inbox.
    pub fn deliver_chunk(&mut self, c: Chunk)
        requires
            old(self).wf(),
            c.wf(),
            c.chunk_size == old(self).chunk_size,
        ensures
            final(self).wf(),
            final(self).chunk_size == old(self).chunk_size,
            final(self).seed == old(self).seed,
            final(self).worker_count == old(self).worker_count,
            final(self).registry == old(self).registry,
            final(self).pending_voxels == old(self).pending_voxels,
            final(self).pending_chunks == old(self).pending_chunks,
            final(self).work_queue == old(self).work_queue,
            final(self).results@ == old(self).results@.push(c),
    {
        self.results.push(c);
    }

    /// Evict every chunk whose Chebyshev distance from `(cx, cy, cz)`
    /// exceeds `render_distance`; chunks at exactly that distance stay.
    /// Eviction is unconditional: it consults neither the pending-chunk
    /// set nor the pending-edit buffer, so a revisited coordinate simply
    /// regenerates from scratch.
    pub fn remove_distant_chunks(&mut self, cx: i32, cy: i32, cz: i32, render_distance: i32)
        requires
            old(self).wf(),
        ensures
            final(self).wf(),
            final(self).chunk_size == old(self).chunk_size,
            final(self).seed == old(self).seed,
            final(self).worker_count == old(self).worker_count,
            final(self).pending_voxels == old(self).pending_voxels,
            final(self).pending_chunks == old(self).pending_chunks,
            final(self).work_queue == old(self).work_queue,
            final(self).results == old(self).results,
            forall|q: ChunkPos| #![trigger final(self).registry.resident(q)]
                final(self).registry.resident(q) <==> (old(self).registry.resident(q) && chebyshev(
                    q,
                    ChunkPos { x: cx, y: cy, z: cz },
                ) <= render_distance),
            forall|q: ChunkPos|
                final(self).registry.resident(q) ==> final(self).registry.chunk_at(q) == old(self).registry.chunk_at(q),
    {
        let ghost pre = *self;
        let center = ChunkPos { x: cx, y: cy, z: cz };
        let positions = self.registry.positions();
        proof {
            assert forall|k1: int, k2: int|
                0 <= k1 < k2 < positions@.len() implies positions@[k1] != positions@[k2] by {
                assert(positions@[k1] == pre.registry.entries@[k1].position);
                assert(positions@[k2] == pre.registry.entries@[k2].position);
            }
        }
        let n = positions.len();
        let mut i: usize = 0;
        while i < n
            invariant
                self.chunk_size == pre.chunk_size,
                self.seed == pre.seed,
                self.worker_count == pre.worker_count,
                self.pending_voxels == pre.pending_voxels,
                self.pending_chunks == pre.pending_chunks,
                self.work_queue == pre.work_queue,
                self.results == pre.results,
                pre.wf(),
                self.registry.wf(),
                center == (ChunkPos { x: cx, y: cy, z: cz }),
                n == positions@.len(),
                n == pre.registry.count(),
                i <= n,
                forall|k: int| 0 <= k < n ==> positions@[k] == pre.registry.entries@[k].position,
                forall|k1: int, k2: int|
                    0 <= k1 < k2 < n ==> positions@[k1] != positions@[k2],
                forall|q: ChunkPos| #![trigger self.registry.resident(q)]
                    self.registry.resident(q) <==> (pre.registry.resident(q) && !(exists|k: int|
                        0 <= k < i && positions@[k] == q && chebyshev(q, center)
                            > render_distance)),
                forall|q: ChunkPos|
                    self.registry.resident(q) ==> self.registry.chunk_at(q)
                        == pre.registry.chunk_at(q),
            decreases n - i,
        {
            let p = positions[i];
            let d = crate::coords::chebyshev_dist(p, center);
            if d > render_distance as i64 {
                self.registry.remove(p);
            }
            proof {
                assert forall|q: ChunkPos| #![trigger self.registry.resident(q)]
                    self.registry.resident(q) <==> (pre.registry.resident(q) && !(exists|k: int|
                        0 <= k < i + 1 && positions@[k] == q && chebyshev(q, center)
                            > render_distance)) by {
                    if pre.registry.resident(q) {
                        if exists|k: int|
                            0 <= k < i + 1 && positions@[k] == q && chebyshev(q, center)
                                > render_distance {
                            let k = choose|k: int|
                                0 <= k < i + 1 && positions@[k] == q && chebyshev(q, center)
                                    > render_distance;
                            if k < i {
                                assert(!self.registry.resident(q));
                            } else {
                                assert(q == p);
                            }
                        }
                    }
                }
            }
            i = i + 1;
        }
        proof {
            assert forall|q: ChunkPos| #![trigger final(self).registry.resident(q)]
                self.registry.resident(q) <==> (pre.registry.resident(q) && chebyshev(q, center)
                    <= render_distance) by {
                if pre.registry.resident(q) && chebyshev(q, center) > render_distance {
                    let k = pre.registry.index_of(q);
                    assert(pre.registry.entries@[k].position == q);
                    assert(positions@[k] == q);
                }
            }
            assert forall|q: ChunkPos|
                self.registry.resident(q) implies (#[trigger] self.registry.chunk_at(q)).wf()
                && self.registry.chunk_at(q).chunk_size == self.chunk_size by {
                assert(pre.registry.resident(q));
                assert(self.registry.chunk_at(q) == pre.registry.chunk_at(q));
            }
        }
    }

    /// True when the coordinate at `center` plus the offset is neither
    /// resident nor pending: a hole the scheduler may fill.
    pub open spec fn missing_at(self, center: ChunkPos, dx: int, dy: int, dz: int) -> bool {
        let q = offset_pos(center, dx, dy, dz);
        !self.registry.resident(q) && !self.pending_chunks.is_pending(q)
    }

    /// What the scheduler owes of a dispatched coordinate `q`: a hole in
    /// the search ball, at the smallest squared distance any hole has,
    /// and first in enumeration order among holes at that distance.
    pub open spec fn nearest_missing_pick(self, center: ChunkPos, q: ChunkPos) -> bool {
        let dx = q.x - center.x;
        let dy = q.y - center.y;
        let dz = q.z - center.z;
        &&& in_search_ball(dx, dy, dz)
        &&& self.missing_at(center, dx, dy, dz)
        &&& forall|ax: int, ay: int, az: int|
            in_search_ball(ax, ay, az) && #[trigger] self.missing_at(center, ax, ay, az) ==> (
            crate::coords::dist_sq(dx, dy, dz) < crate::coords::dist_sq(ax, ay, az) || (
            crate::coords::dist_sq(dx, dy, dz) == crate::coords::dist_sq(ax, ay, az) && ((ax == dx
                && ay == dy && az == dz) || lex_before(dx, dy, dz, ax, ay, az))))
    }

    /// Find the nearest coordinate around `(cx, cy, cz)` that is neither
    /// resident nor pending, searching expanding spherical shells up to
    /// radius 5, mark it pending and dispatch its generation. The first
    /// shell holding any hole yields the globally nearest hole, ties
    /// broken by enumeration order, so one pass over the full ball picks
    /// the same coordinate the shell-by-shell search reaches. Returns
    /// whether anything was dispatched.
    pub fn generate_nearest_missing_chunk_simple(&mut self, cx: i32, cy: i32, cz: i32) -> (r: bool)
        requires
            old(self).wf(),
            i32::MIN + 5 <= cx <= i32::MAX - 5,
            i32::MIN + 5 <= cy <= i32::MAX - 5,
            i32::MIN + 5 <= cz <= i32::MAX - 5,
        ensures
            final(self).wf(),
            final(self).chunk_size == old(self).chunk_size,
            final(self).seed == old(self).seed,
            final(self).worker_count == old(self).worker_count,
            final(self).registry == old(self).registry,
            final(self).results == old(self).results,
            r == (exists|dx: int, dy: int, dz: int|
                in_search_ball(dx, dy, dz) && #[trigger] old(self).missing_at(
                    ChunkPos { x: cx, y: cy, z: cz },
                    dx,
                    dy,
                    dz,
                )),
            !r ==> *final(self) == *old(self),
            r ==> ({
                let center = (ChunkPos { x: cx, y: cy, z: cz });
                &&& final(self).work_queue@.len() == old(self).work_queue@.len() + 1
                &&& forall|i: int|
                    0 <= i < old(self).work_queue@.len() ==> final(self).work_queue@[i] == old(self).work_queue@[i]
                &&& (match final(self).work_queue@.last() {
                    WorkItem::Generate { position, seed_edits } => {
                        &&& old(self).nearest_missing_pick(center, position)
                        &&& forall|q: ChunkPos|
                            final(self).pending_chunks.is_pending(q) <==> (old(self).pending_chunks.is_pending(q) || q == position)
                        &&& forall|q: ChunkPos|
                            final(self).pending_voxels.has_patch(q) <==> (old(self).pending_voxels.has_patch(q) && q != position)
                        &&& forall|q: ChunkPos|
                            q != position && old(self).pending_voxels.has_patch(q) ==> final(self).pending_voxels.patch_at(q) == old(self).pending_voxels.patch_at(q)
                        &&& (match seed_edits {
                            Some(v) => old(self).pending_voxels.has_patch(position) && v@ == old(self).pending_voxels.patch_at(position),
                            None => !old(self).pending_voxels.has_patch(position),
                        })
                    },
                    _ => false,
                })
            }),
    {
        let ghost pre = *self;
        let ghost center = ChunkPos { x: cx, y: cy, z: cz };
        let mut found = false;
        let mut best_dx: i32 = 0;
        let mut best_dy: i32 = 0;
        let mut best_dz: i32 = 0;
        let mut best_d: i32 = i32::MAX;
        let mut dx: i32 = -5;
        while dx <= 5
            invariant
                *self == pre,
                pre.wf(),
                center == (ChunkPos { x: cx, y: cy, z: cz }),
                i32::MIN + 5 <= cx <= i32::MAX - 5,
                i32::MIN + 5 <= cy <= i32::MAX - 5,
                i32::MIN + 5 <= cz <= i32::MAX - 5,
                -5 <= dx <= 6,
                scan_state_ok(
                    pre,
                    center,
                    found,
                    best_dx as int,
                    best_dy as int,
                    best_dz as int,
                    best_d as int,
                    dx as int,
                    -5,
                    -5,
                ),
            decreases 6 - dx,
        {
            let mut dy: i32 = -5;
            while dy <= 5
                invariant
                    *self == pre,
                    pre.wf(),
                    center == (ChunkPos { x: cx, y: cy, z: cz }),
                    i32::MIN + 5 <= cx <= i32::MAX - 5,
                    i32::MIN + 5 <= cy <= i32::MAX - 5,
                    i32::MIN + 5 <= cz <= i32::MAX - 5,
                    -5 <= dx <= 5,
                    -5 <= dy <= 6,
                    scan_state_ok(
                        pre,
                        center,
                        found,
                        best_dx as int,
                        best_dy as int,
                        best_dz as int,
                        best_d as int,
                        dx as int,
                        dy as int,
                        -5,
                    ),
                decreases 6 - dy,
            {
                let mut dz: i32 = -5;
                while dz <= 5
                    invariant
                        *self == pre,
                        pre.wf(),
                        center == (ChunkPos { x: cx, y: cy, z: cz }),
                        i32::MIN + 5 <= cx <= i32::MAX - 5,
                        i32::MIN + 5 <= cy <= i32::MAX - 5,
                        i32::MIN + 5 <= cz <= i32::MAX - 5,
                        -5 <= dx <= 5,
                        -5 <= dy <= 5,
                        -5 <= dz <= 6,
                        scan_state_ok(
                            pre,
                            center,
                            found,
                            best_dx as int,
                            best_dy as int,
                            best_dz as int,
                            best_d as int,
                            dx as int,
                            dy as int,
                            dz as int,
                        ),
                    decreases 6 - dz,
                {
                    proof {
                        assert(0 <= dx as int * dx as int <= 25) by (nonlinear_arith)
                            requires
                                -5 <= dx as int <= 5,
                        ;
                        assert(0 <= dy as int * dy as int <= 25) by (nonlinear_arith)
                            requires
                                -5 <= dy as int <= 5,
                        ;
                        assert(0 <= dz as int * dz as int <= 25) by (nonlinear_arith)
                            requires
                                -5 <= dz as int <= 5,
                        ;
                    }
                    let dsq = dx * dx + dy * dy + dz * dz;
                    if dsq <= 25 {
                        let q = ChunkPos { x: cx + dx, y: cy + dy, z: cz + dz };
                        if !self.registry.contains(q) && !self.pending_chunks.contains(q) {
                            proof {
                                assert(pre.missing_at(center, dx as int, dy as int, dz as int));
                            }
                            if dsq < best_d {
                                best_d = dsq;
                                best_dx = dx;
                                best_dy = dy;
                                best_dz = dz;
                                found = true;
                            }
                        }
                    }
                    dz = dz + 1;
                }
                dy = dy + 1;
            }
            dx = dx + 1;
        }
        proof {
            if found {
                assert(pre.missing_at(center, best_dx as int, best_dy as int, best_dz as int));
            }
            assert forall|ax: int, ay: int, az: int|
                in_search_ball(ax, ay, az) implies lex_before(ax, ay, az, 6, -5, -5) by {}
        }
        if found {
            let q = ChunkPos { x: cx + best_dx, y: cy + best_dy, z: cz + best_dz };
            self.pending_chunks.insert(q);
            self.create_chunk(q.x, q.y, q.z);
            true
        } else {
            false
        }
    }

    /// Take one drained result chunk in: clear its coordinate from the
    /// pending-chunk set, re-route each of its out-of-bounds edits into
    /// the buffer under the edit's true target chunk, upload its mesh,
    /// and make it resident (replacing any chunk already there).
    fn absorb_result(&mut self, c: Chunk)
        requires
            old(self).wf(),
            c.wf(),
            c.chunk_size == old(self).chunk_size,
        ensures
            final(self).wf(),
            final(self).chunk_size == old(self).chunk_size,
            final(self).seed == old(self).seed,
            final(self).worker_count == old(self).worker_count,
            final(self).work_queue == old(self).work_queue,
            final(self).results == old(self).results,
            forall|q: ChunkPos|
                final(self).pending_chunks.is_pending(q) <==> (old(self).pending_chunks.is_pending(q) && q != c.position),
            forall|q: ChunkPos| #![trigger final(self).registry.resident(q)]
                final(self).registry.resident(q) <==> (old(self).registry.resident(q) || q
                    == c.position),
            ({
                let c2 = final(self).registry.chunk_at(c.position);
                &&& c2.position == c.position
                &&& c2.chunk_size == c.chunk_size
                &&& c2.voxels == c.voxels
                &&& c2.needs_rebuild == c.needs_rebuild
                &&& c2.mesh_ready == c.mesh_ready
                &&& c2.gpu_ready
                &&& c2.out_of_bounds_voxels@ =~= Seq::<(i32, i32, i32, VoxelType)>::empty()
            }),
            forall|q: ChunkPos|
                q != c.position && old(self).registry.resident(q) ==> final(self).registry.chunk_at(q) == old(self).registry.chunk_at(q),
            forall|q: ChunkPos| #![trigger final(self).pending_voxels.patch_or_empty(q)]
                final(self).pending_voxels.patch_or_empty(q) == old(self).pending_voxels.patch_or_empty(q) + crate::work::edits_toward(
                    c.out_of_bounds_voxels@,
                    old(self).chunk_size as int,
                    q,
                ),
            forall|q: ChunkPos| #![trigger final(self).pending_voxels.has_patch(q)]
                final(self).pending_voxels.has_patch(q) <==> (old(self).pending_voxels.has_patch(q)
                    || crate::work::edits_toward(
                    c.out_of_bounds_voxels@,
                    old(self).chunk_size as int,
                    q,
                ).len() > 0),
    {
        let ghost pre = *self;
        let ghost cs = self.chunk_size as int;
        let ghost oob = c.out_of_bounds_voxels@;
        let p = c.position;
        self.pending_chunks.remove(p);
        let mut c = c;
        let cs_exec = self.chunk_size as i32;
        let n = c.out_of_bounds_voxels.len();
        let mut k: usize = 0;
        proof {
            assert forall|q: ChunkPos|
                self.pending_voxels.patch_or_empty(q) == pre.pending_voxels.patch_or_empty(q)
                    + crate::work::edits_toward(oob.take(0), cs, q) by {
                assert(crate::work::edits_toward(oob.take(0), cs, q) =~= Seq::<
                    (i32, i32, i32, VoxelType),
                >::empty());
                assert(self.pending_voxels.patch_or_empty(q) + crate::work::edits_toward(
                    oob.take(0),
                    cs,
                    q,
                ) =~= self.pending_voxels.patch_or_empty(q));
            }
        }
        while k < n
            invariant
                self.chunk_size == pre.chunk_size,
                self.seed == pre.seed,
                self.worker_count == pre.worker_count,
                self.registry == pre.registry,
                self.work_queue == pre.work_queue,
                self.results == pre.results,
                pre.wf(),
                self.pending_voxels.wf(),
                forall|q: ChunkPos|
                    self.pending_chunks.is_pending(q) <==> (pre.pending_chunks.is_pending(q) && q
                        != p),
                self.pending_chunks.wf(),
                cs == pre.chunk_size as int,
                cs_exec == pre.chunk_size as i32,
                c.out_of_bounds_voxels@ == oob,
                c.wf(),
                c.chunk_size == pre.chunk_size,
                c.position == p,
                n == oob.len(),
                k <= n,
                forall|q: ChunkPos| #![trigger self.pending_voxels.patch_or_empty(q)]
                    self.pending_voxels.patch_or_empty(q) == pre.pending_voxels.patch_or_empty(q)
                        + crate::work::edits_toward(oob.take(k as int), cs, q),
                forall|q: ChunkPos| #![trigger self.pending_voxels.has_patch(q)]
                    self.pending_voxels.has_patch(q) <==> (pre.pending_voxels.has_patch(q)
                        || crate::work::edits_toward(oob.take(k as int), cs, q).len() > 0),
            decreases n - k,
        {
            let e = c.out_of_bounds_voxels[k];
            let target = crate::coords::world_to_chunk(e.0, e.1, e.2, cs_exec);
            proof {
                crate::work::lemma_take_step_edits(oob, k as int);
                assert(crate::work::edit_target(oob[k as int], 0, 0, 0, cs) == target);
            }
            let ghost pv_mid = self.pending_voxels;
            self.pending_voxels.push_edit(target, e);
            proof {
                assert forall|q: ChunkPos| #![trigger self.pending_voxels.patch_or_empty(q)]
                    self.pending_voxels.patch_or_empty(q) == pre.pending_voxels.patch_or_empty(q)
                        + crate::work::edits_toward(oob.take(k as int + 1), cs, q) by {
                    assert(pv_mid.patch_or_empty(q) == pre.pending_voxels.patch_or_empty(q)
                        + crate::work::edits_toward(oob.take(k as int), cs, q));
                    assert(pv_mid.has_patch(q) <==> (pre.pending_voxels.has_patch(q)
                        || crate::work::edits_toward(oob.take(k as int), cs, q).len() > 0));
                    if q == target {
                        assert(self.pending_voxels.has_patch(target));
                        assert(self.pending_voxels.patch_at(target) == pv_mid.patch_or_empty(
                            target,
                        ).push(e));
                        assert(crate::work::edits_toward(oob.take(k as int + 1), cs, q)
                            =~= crate::work::edits_toward(oob.take(k as int), cs, q).push(e));
                        assert((pre.pending_voxels.patch_or_empty(q) + crate::work::edits_toward(
                            oob.take(k as int),
                            cs,
                            q,
                        )).push(e) =~= pre.pending_voxels.patch_or_empty(q)
                            + crate::work::edits_toward(oob.take(k as int), cs, q).push(e));
                    } else {
                        assert(crate::work::edits_toward(oob.take(k as int + 1), cs, q)
                            =~= crate::work::edits_toward(oob.take(k as int), cs, q));
                        if pv_mid.has_patch(q) {
                            assert(self.pending_voxels.patch_at(q) == pv_mid.patch_at(q));
                        }
                    }
                    assert(self.pending_voxels.patch_or_empty(q)
                        =~= pre.pending_voxels.patch_or_empty(q) + crate::work::edits_toward(
                        oob.take(k as int + 1),
                        cs,
                        q,
                    ));
                }
                assert forall|q: ChunkPos| #![trigger self.pending_voxels.has_patch(q)]
                    self.pending_voxels.has_patch(q) <==> (pre.pending_voxels.has_patch(q)
                        || crate::work::edits_toward(oob.take(k as int + 1), cs, q).len() > 0) by {
                    if q == target {
                        assert(crate::work::edits_toward(oob.take(k as int + 1), cs, q)
                            =~= crate::work::edits_toward(oob.take(k as int), cs, q).push(e));
                    } else {
                        assert(crate::work::edits_toward(oob.take(k as int + 1), cs, q)
                            =~= crate::work::edits_toward(oob.take(k as int), cs, q));
                    }
                }
            }
            k = k + 1;
        }
        proof {
            assert(oob.take(n as int) =~= oob);
            assert(oob.take(n as int) == oob);
        }
        c.out_of_bounds_voxels = Vec::new();
        c.upload_to_gpu();
        self.registry.insert(c);
        proof {
            assert forall|q: ChunkPos|
                self.registry.resident(q) implies (#[trigger] self.registry.chunk_at(q)).wf()
                && self.registry.chunk_at(q).chunk_size == self.chunk_size by {
                if q != p {
                    assert(pre.registry.resident(q));
                    assert(self.registry.chunk_at(q) == pre.registry.chunk_at(q));
                }
            }
        }
    }

    /// Apply every buffered patch whose target chunk is resident: the
    /// edits land in the chunk's grid and the chunk goes out for a mesh
    /// rebuild. Patches for non-resident targets stay buffered.
    fn apply_pending_patches(&mut self)
        requires
            old(self).wf(),
        ensures
            final(self).wf(),
            final(self).chunk_size == old(self).chunk_size,
            final(self).seed == old(self).seed,
            final(self).worker_count == old(self).worker_count,
            final(self).pending_chunks == old(self).pending_chunks,
            final(self).results == old(self).results,
            forall|q: ChunkPos| #![trigger final(self).pending_voxels.has_patch(q)]
                final(self).pending_voxels.has_patch(q) <==> (old(self).pending_voxels.has_patch(q)
                    && !old(self).registry.resident(q)),
            forall|q: ChunkPos|
                final(self).pending_voxels.has_patch(q) ==> final(self).pending_voxels.patch_at(q)
                    == old(self).pending_voxels.patch_at(q),
            forall|q: ChunkPos| #![trigger final(self).registry.resident(q)]
                final(self).registry.resident(q) <==> (old(self).registry.resident(q) && !old(self).pending_voxels.has_patch(q)),
            forall|q: ChunkPos|
                final(self).registry.resident(q) ==> final(self).registry.chunk_at(q) == old(self).registry.chunk_at(q),
            final(self).work_queue@.len() >= old(self).work_queue@.len(),
            forall|t: int|
                0 <= t < old(self).work_queue@.len() ==> final(self).work_queue@[t] == old(self).work_queue@[t],
            forall|t: int|
                #![trigger final(self).work_queue@[t]]
                old(self).work_queue@.len() <= t < final(self).work_queue@.len() ==> (
                match final(self).work_queue@[t] {
                    WorkItem::Remesh { chunk } => exists|q: ChunkPos|
                        #![trigger old(self).registry.chunk_at(q)]
                        old(self).registry.resident(q) && old(self).pending_voxels.has_patch(q)
                            && chunk.position == q && crate::work::edits_applied_chunk(
                            chunk,
                            old(self).registry.chunk_at(q),
                            old(self).pending_voxels.patch_at(q),
                        ),
                    _ => false,
                }),
            forall|q: ChunkPos|
                old(self).registry.resident(q) && old(self).pending_voxels.has_patch(q) ==> (
                exists|t: int|
                    #![trigger final(self).work_queue@[t]]
                    old(self).work_queue@.len() <= t < final(self).work_queue@.len() && (
                    match final(self).work_queue@[t] {
                        WorkItem::Remesh { chunk } => chunk.position == q,
                        _ => false,
                    })),
    {
        let ghost p0 = *self;
        let targets = self.pending_voxels.targets();
        proof {
            assert forall|k1: int, k2: int|
                0 <= k1 < k2 < targets@.len() implies targets@[k1] != targets@[k2] by {
                assert(targets@[k1] == p0.pending_voxels.entries@[k1].target);
                assert(targets@[k2] == p0.pending_voxels.entries@[k2].target);
            }
        }
        let n = targets.len();
        let mut i: usize = 0;
        while i < n
            invariant
                self.chunk_size == p0.chunk_size,
                self.seed == p0.seed,
                self.worker_count == p0.worker_count,
                self.pending_chunks == p0.pending_chunks,
                self.results == p0.results,
                p0.wf(),
                self.registry.wf(),
                forall|q: ChunkPos|
                    self.registry.resident(q) ==> (#[trigger] self.registry.chunk_at(q)).wf()
                        && self.registry.chunk_at(q).chunk_size == self.chunk_size,
                self.pending_voxels.wf(),
                n == targets@.len(),
                n == p0.pending_voxels.entries@.len(),
                forall|k: int|
                    0 <= k < n ==> targets@[k] == p0.pending_voxels.entries@[k].target,
                forall|k1: int, k2: int| 0 <= k1 < k2 < n ==> targets@[k1] != targets@[k2],
                i <= n,
                forall|q: ChunkPos| #![trigger self.pending_voxels.has_patch(q)]
                    self.pending_voxels.has_patch(q) <==> (p0.pending_voxels.has_patch(q) && !(
                    exists|k: int|
                        0 <= k < i && targets@[k] == q && p0.registry.resident(
                            #[trigger] targets@[k],
                        ))),
                forall|q: ChunkPos|
                    self.pending_voxels.has_patch(q) ==> self.pending_voxels.patch_at(q)
                        == p0.pending_voxels.patch_at(q),
                forall|q: ChunkPos| #![trigger self.registry.resident(q)]
                    self.registry.resident(q) <==> (p0.registry.resident(q) && !(exists|k: int|
                        0 <= k < i && (#[trigger] targets@[k]) == q)),
                forall|q: ChunkPos|
                    self.registry.resident(q) ==> self.registry.chunk_at(q) == p0.registry.chunk_at(
                        q,
                    ),
                self.work_queue@.len() >= p0.work_queue@.len(),
                forall|t: int|
                    0 <= t < p0.work_queue@.len() ==> self.work_queue@[t] == p0.work_queue@[t],
                forall|t: int|
                    0 <= t < self.work_queue@.len() ==> item_wf(
                        #[trigger] self.work_queue@[t],
                        self.chunk_size as int,
                    ),
                forall|t: int|
                    #![trigger self.work_queue@[t]]
                    p0.work_queue@.len() <= t < self.work_queue@.len() ==> (
                    match self.work_queue@[t] {
                        WorkItem::Remesh { chunk } => exists|q: ChunkPos|
                            #![trigger p0.registry.chunk_at(q)]
                            p0.registry.resident(q) && p0.pending_voxels.has_patch(q)
                                && chunk.position == q && crate::work::edits_applied_chunk(
                                chunk,
                                p0.registry.chunk_at(q),
                                p0.pending_voxels.patch_at(q),
                            ),
                        _ => false,
                    }),
                forall|q: ChunkPos|
                    p0.registry.resident(q) && p0.pending_voxels.has_patch(q) && (exists|k: int|
                        0 <= k < i && (#[trigger] targets@[k]) == q) ==> (exists|t: int|
                        #![trigger self.work_queue@[t]]
                        p0.work_queue@.len() <= t < self.work_queue@.len() && (
                        match self.work_queue@[t] {
                            WorkItem::Remesh { chunk } => chunk.position == q,
                            _ => false,
                        })),
            decreases n - i,
        {
            let q = targets[i];
            let ghost reg_pre = self.registry;
            let ghost pv_pre = self.pending_voxels;
            let ghost wq_pre = self.work_queue@;
            match self.registry.remove(q) {
                Some(mut chunk) => {
                    proof {
                        assert(reg_pre.resident(q));
                        assert(p0.registry.resident(q));
                        assert(chunk == p0.registry.chunk_at(q));
                        p0.pending_voxels.lemma_index_unique(i as int, q);
                        assert(p0.pending_voxels.has_patch(q));
                        assert(pv_pre.has_patch(q));
                    }
                    let edits = match self.pending_voxels.remove(q) {
                        Some(v) => v,
                        None => {
                            proof {
                                assert(false);
                            }
                            Vec::new()
                        },
                    };
                    crate::work::apply_updates_to_chunk(&mut chunk, &edits, 0, 0, 0);
                    self.work_queue.push(WorkItem::Remesh { chunk });
                    proof {
                        let t_new = self.work_queue@.len() - 1;
                        assert(self.work_queue@[t_new] == (WorkItem::Remesh { chunk }));
                        assert(crate::work::edits_applied_chunk(
                            chunk,
                            p0.registry.chunk_at(q),
                            p0.pending_voxels.patch_at(q),
                        ));
                        assert forall|qq: ChunkPos| #![trigger self.registry.resident(qq)]
                            self.registry.resident(qq) <==> (p0.registry.resident(qq) && !(
                            exists|k: int|
                                0 <= k < i + 1 && (#[trigger] targets@[k]) == qq)) by {
                            if self.registry.resident(qq) {
                                assert(reg_pre.resident(qq) && qq != q);
                                if exists|k: int| 0 <= k < i + 1 && (#[trigger] targets@[k]) == qq {
                                    let k = choose|k: int|
                                        0 <= k < i + 1 && (#[trigger] targets@[k]) == qq;
                                    assert(k < i);
                                    assert(!reg_pre.resident(qq));
                                    assert(false);
                                }
                            }
                            if p0.registry.resident(qq) && !(exists|k: int|
                                0 <= k < i + 1 && (#[trigger] targets@[k]) == qq) {
                                assert(!(exists|k: int|
                                    0 <= k < i && (#[trigger] targets@[k]) == qq));
                                assert(reg_pre.resident(qq));
                                assert(qq != q) by {
                                    assert(targets@[i as int] == q);
                                }
                            }
                        }
                        assert forall|qq: ChunkPos| #![trigger self.pending_voxels.has_patch(qq)]
                            self.pending_voxels.has_patch(qq) <==> (p0.pending_voxels.has_patch(qq)
                                && !(exists|k: int|
                                0 <= k < i + 1 && targets@[k] == qq && p0.registry.resident(
                                    #[trigger] targets@[k],
                                ))) by {
                            if self.pending_voxels.has_patch(qq) {
                                assert(pv_pre.has_patch(qq) && qq != q);
                                if exists|k: int|
                                    0 <= k < i + 1 && targets@[k] == qq && p0.registry.resident(
                                        #[trigger] targets@[k],
                                    ) {
                                    let k = choose|k: int|
                                        0 <= k < i + 1 && targets@[k] == qq && p0.registry.resident(
                                            #[trigger] targets@[k],
                                        );
                                    assert(k < i);
                                    assert(!pv_pre.has_patch(qq));
                                    assert(false);
                                }
                            }
                            if p0.pending_voxels.has_patch(qq) && !(exists|k: int|
                                0 <= k < i + 1 && targets@[k] == qq && p0.registry.resident(
                                    #[trigger] targets@[k],
                                )) {
                                assert(!(exists|k: int|
                                    0 <= k < i && targets@[k] == qq && p0.registry.resident(
                                        #[trigger] targets@[k],
                                    )));
                                assert(pv_pre.has_patch(qq));
                                assert(qq != q) by {
                                    assert(targets@[i as int] == q);
                                    assert(p0.registry.resident(targets@[i as int]));
                                }
                            }
                        }
                        assert forall|qq: ChunkPos|
                            p0.registry.resident(qq) && p0.pending_voxels.has_patch(qq) && (
                            exists|k: int|
                                0 <= k < i + 1 && (#[trigger] targets@[k]) == qq) implies (
                        exists|t: int|
                            #![trigger self.work_queue@[t]]
                            p0.work_queue@.len() <= t < self.work_queue@.len() && (
                            match self.work_queue@[t] {
                                WorkItem::Remesh { chunk } => chunk.position == qq,
                                _ => false,
                            })) by {
                            if qq == q {
                                assert(match self.work_queue@[t_new] {
                                    WorkItem::Remesh { chunk } => chunk.position == qq,
                                    _ => false,
                                });
                            } else {
                                let k = choose|k: int|
                                    0 <= k < i + 1 && (#[trigger] targets@[k]) == qq;
                                assert(k < i);
                                let t = choose|t: int|
                                    #![trigger wq_pre[t]]
                                    p0.work_queue@.len() <= t < wq_pre.len() && (
                                    match wq_pre[t] {
                                        WorkItem::Remesh { chunk } => chunk.position == qq,
                                        _ => false,
                                    });
                                assert(self.work_queue@[t] == wq_pre[t]);
                            }
                        }
                    }
                },
                None => {
                    proof {
                        assert(!reg_pre.resident(q));
                        assert(!p0.registry.resident(q)) by {
                            if p0.registry.resident(q) {
                                if exists|k: int| 0 <= k < i && (#[trigger] targets@[k]) == q {
                                    let k = choose|k: int|
                                        0 <= k < i && (#[trigger] targets@[k]) == q;
                                    assert(targets@[k] == targets@[i as int]);
                                    assert(false);
                                }
                                assert(reg_pre.resident(q));
                                assert(false);
                            }
                        }
                        assert forall|qq: ChunkPos| #![trigger self.registry.resident(qq)]
                            self.registry.resident(qq) <==> (p0.registry.resident(qq) && !(
                            exists|k: int|
                                0 <= k < i + 1 && (#[trigger] targets@[k]) == qq)) by {
                            if p0.registry.resident(qq) && !(exists|k: int|
                                0 <= k < i + 1 && (#[trigger] targets@[k]) == qq) {
                                assert(!(exists|k: int|
                                    0 <= k < i && (#[trigger] targets@[k]) == qq));
                            }
                            if self.registry.resident(qq) {
                                if exists|k: int| 0 <= k < i + 1 && (#[trigger] targets@[k]) == qq {
                                    let k = choose|k: int|
                                        0 <= k < i + 1 && (#[trigger] targets@[k]) == qq;
                                    if k < i {
                                        assert(false);
                                    } else {
                                        assert(qq == q);
                                        assert(false);
                                    }
                                }
                            }
                        }
                        assert forall|qq: ChunkPos| #![trigger self.pending_voxels.has_patch(qq)]
                            self.pending_voxels.has_patch(qq) <==> (p0.pending_voxels.has_patch(qq)
                                && !(exists|k: int|
                                0 <= k < i + 1 && targets@[k] == qq && p0.registry.resident(
                                    #[trigger] targets@[k],
                                ))) by {
                            if exists|k: int|
                                0 <= k < i + 1 && targets@[k] == qq && p0.registry.resident(
                                    #[trigger] targets@[k],
                                ) {
                                let k = choose|k: int|
                                    0 <= k < i + 1 && targets@[k] == qq && p0.registry.resident(
                                        #[trigger] targets@[k],
                                    );
                                if k == i {
                                    assert(qq == q);
                                    assert(false);
                                }
                            }
                        }
                    }
                },
            }
            i = i + 1;
        }
        proof {
            assert forall|q: ChunkPos|
                p0.pending_voxels.has_patch(q) implies (exists|k: int|
                0 <= k < n && (#[trigger] targets@[k]) == q) by {
                let k = p0.pending_voxels.index_of(q);
                assert(p0.pending_voxels.entries@[k].target == q);
                assert(targets@[k] == q);
            }
            assert forall|q: ChunkPos| (exists|k: int| 0 <= k < n && (#[trigger] targets@[k]) == q)
                implies p0.pending_voxels.has_patch(q) by {
                let k = choose|k: int| 0 <= k < n && (#[trigger] targets@[k]) == q;
                assert(p0.pending_voxels.entries@[k].target == q);
                p0.pending_voxels.lemma_index_unique(k, q);
            }
        }
    }

    /// Hand every resident chunk whose rebuild flag is set to the pool
    /// for a remesh, clearing the flag as it goes out, so that a flag is
    /// turned into exactly one rebuild.
    fn dispatch_rebuilds(&mut self)
        requires
            old(self).wf(),
        ensures
            final(self).wf(),
            final(self).chunk_size == old(self).chunk_size,
            final(self).seed == old(self).seed,
            final(self).worker_count == old(self).worker_count,
            final(self).pending_voxels == old(self).pending_voxels,
            final(self).pending_chunks == old(self).pending_chunks,
            final(self).results == old(self).results,
            forall|q: ChunkPos| #![trigger final(self).registry.resident(q)]
                final(self).registry.resident(q) <==> (old(self).registry.resident(q) && !old(self).registry.chunk_at(q).needs_rebuild),
            forall|q: ChunkPos|
                final(self).registry.resident(q) ==> final(self).registry.chunk_at(q) == old(self).registry.chunk_at(q),
            final(self).work_queue@.len() >= old(self).work_queue@.len(),
            forall|t: int|
                0 <= t < old(self).work_queue@.len() ==> final(self).work_queue@[t] == old(self).work_queue@[t],
            forall|t: int|
                #![trigger final(self).work_queue@[t]]
                old(self).work_queue@.len() <= t < final(self).work_queue@.len() ==> (
                match final(self).work_queue@[t] {
                    WorkItem::Remesh { chunk } => exists|q: ChunkPos|
                        #![trigger old(self).registry.chunk_at(q)]
                        old(self).registry.resident(q) && old(self).registry.chunk_at(
                            q,
                        ).needs_rebuild && chunk.position == q && chunk == (Chunk {
                            needs_rebuild: false,
                            ..old(self).registry.chunk_at(q)
                        }),
                    _ => false,
                }),
            forall|q: ChunkPos|
                old(self).registry.resident(q) && old(self).registry.chunk_at(q).needs_rebuild
                    ==> (exists|t: int|
                    #![trigger final(self).work_queue@[t]]
                    old(self).work_queue@.len() <= t < final(self).work_queue@.len() && (
                    match final(self).work_queue@[t] {
                        WorkItem::Remesh { chunk } => chunk.position == q,
                        _ => false,
                    })),
    {
        let ghost p0 = *self;
        let positions = self.registry.positions();
        proof {
            assert forall|k1: int, k2: int|
                0 <= k1 < k2 < positions@.len() implies positions@[k1] != positions@[k2] by {
                assert(positions@[k1] == p0.registry.entries@[k1].position);
                assert(positions@[k2] == p0.registry.entries@[k2].position);
            }
        }
        let n = positions.len();
        let mut i: usize = 0;
        while i < n
            invariant
                self.chunk_size == p0.chunk_size,
                self.seed == p0.seed,
                self.worker_count == p0.worker_count,
                self.pending_voxels == p0.pending_voxels,
                self.pending_chunks == p0.pending_chunks,
                self.results == p0.results,
                p0.wf(),
                self.registry.wf(),
                n == positions@.len(),
                n == p0.registry.count(),
                forall|k: int| 0 <= k < n ==> positions@[k] == p0.registry.entries@[k].position,
                forall|k1: int, k2: int|
                    0 <= k1 < k2 < n ==> positions@[k1] != positions@[k2],
                i <= n,
                forall|q: ChunkPos| #![trigger self.registry.resident(q)]
                    self.registry.resident(q) <==> (p0.registry.resident(q) && !(exists|k: int|
                        0 <= k < i && (#[trigger] positions@[k]) == q && p0.registry.chunk_at(
                            q,
                        ).needs_rebuild)),
                forall|q: ChunkPos|
                    self.registry.resident(q) ==> self.registry.chunk_at(q) == p0.registry.chunk_at(
                        q,
                    ),
                self.work_queue@.len() >= p0.work_queue@.len(),
                forall|t: int|
                    0 <= t < p0.work_queue@.len() ==> self.work_queue@[t] == p0.work_queue@[t],
                forall|t: int|
                    0 <= t < self.work_queue@.len() ==> item_wf(
                        #[trigger] self.work_queue@[t],
                        self.chunk_size as int,
                    ),
                forall|t: int|
                    #![trigger self.work_queue@[t]]
                    p0.work_queue@.len() <= t < self.work_queue@.len() ==> (
                    match self.work_queue@[t] {
                        WorkItem::Remesh { chunk } => exists|q: ChunkPos|
                            #![trigger p0.registry.chunk_at(q)]
                            p0.registry.resident(q) && p0.registry.chunk_at(q).needs_rebuild
                                && chunk.position == q && chunk == (Chunk {
                                needs_rebuild: false,
                                ..p0.registry.chunk_at(q)
                            }),
                        _ => false,
                    }),
                forall|q: ChunkPos|
                    p0.registry.resident(q) && p0.registry.chunk_at(q).needs_rebuild && (
                    exists|k: int|
                        0 <= k < i && (#[trigger] positions@[k]) == q) ==> (exists|t: int|
                        #![trigger self.work_queue@[t]]
                        p0.work_queue@.len() <= t < self.work_queue@.len() && (
                        match self.work_queue@[t] {
                            WorkItem::Remesh { chunk } => chunk.position == q,
                            _ => false,
                        })),
            decreases n - i,
        {
            let q = positions[i];
            proof {
                p0.registry.lemma_index_unique(i as int, q);
            }
            let ghost reg_pre = self.registry;
            let ghost wq_pre = self.work_queue@;
            let needs = match self.registry.get(q) {
                Some(c) => c.needs_rebuild,
                None => false,
            };
            if needs {
                proof {
                    assert(reg_pre.resident(q));
                    assert(reg_pre.chunk_at(q) == p0.registry.chunk_at(q));
                    assert(p0.registry.chunk_at(q).needs_rebuild);
                }
                match self.registry.remove(q) {
                    Some(mut chunk) => {
                        chunk.needs_rebuild = false;
                        self.work_queue.push(WorkItem::Remesh { chunk });
                        proof {
                            let t_new = self.work_queue@.len() - 1;
                            assert(self.work_queue@[t_new] == (WorkItem::Remesh { chunk }));
                            assert(chunk == (Chunk {
                                needs_rebuild: false,
                                ..p0.registry.chunk_at(q)
                            }));
                            assert forall|qq: ChunkPos| #![trigger self.registry.resident(qq)]
                                self.registry.resident(qq) <==> (p0.registry.resident(qq) && !(
                                exists|k: int|
                                    0 <= k < i + 1 && (#[trigger] positions@[k]) == qq
                                        && p0.registry.chunk_at(qq).needs_rebuild)) by {
                                if self.registry.resident(qq) {
                                    assert(reg_pre.resident(qq) && qq != q);
                                    if exists|k: int|
                                        0 <= k < i + 1 && (#[trigger] positions@[k]) == qq
                                            && p0.registry.chunk_at(qq).needs_rebuild {
                                        let k = choose|k: int|
                                            0 <= k < i + 1 && (#[trigger] positions@[k]) == qq
                                                && p0.registry.chunk_at(qq).needs_rebuild;
                                        assert(k < i);
                                        assert(!reg_pre.resident(qq));
                                        assert(false);
                                    }
                                }
                                if p0.registry.resident(qq) && !(exists|k: int|
                                    0 <= k < i + 1 && (#[trigger] positions@[k]) == qq
                                        && p0.registry.chunk_at(qq).needs_rebuild) {
                                    assert(!(exists|k: int|
                                        0 <= k < i && (#[trigger] positions@[k]) == qq
                                            && p0.registry.chunk_at(qq).needs_rebuild));
                                    assert(reg_pre.resident(qq));
                                    assert(qq != q) by {
                                        assert(positions@[i as int] == q);
                                    }
                                }
                            }
                            assert forall|qq: ChunkPos|
                                p0.registry.resident(qq) && p0.registry.chunk_at(
                                    qq,
                                ).needs_rebuild && (exists|k: int|
                                    0 <= k < i + 1 && (#[trigger] positions@[k]) == qq) implies (
                            exists|t: int|
                                #![trigger self.work_queue@[t]]
                                p0.work_queue@.len() <= t < self.work_queue@.len() && (
                                match self.work_queue@[t] {
                                    WorkItem::Remesh { chunk } => chunk.position == qq,
                                    _ => false,
                                })) by {
                                if qq == q {
                                    assert(match self.work_queue@[t_new] {
                                        WorkItem::Remesh { chunk } => chunk.position == qq,
                                        _ => false,
                                    });
                                } else {
                                    let t = choose|t: int|
                                        #![trigger wq_pre[t]]
                                        p0.work_queue@.len() <= t < wq_pre.len() && (
                                        match wq_pre[t] {
                                            WorkItem::Remesh { chunk } => chunk.position == qq,
                                            _ => false,
                                        });
                                    assert(self.work_queue@[t] == wq_pre[t]);
                                }
                            }
                        }
                    },
                    None => {
                        proof {
                            assert(false);
                        }
                    },
                }
            } else {
                proof {
                    assert forall|qq: ChunkPos| #![trigger self.registry.resident(qq)]
                        self.registry.resident(qq) <==> (p0.registry.resident(qq) && !(
                        exists|k: int|
                            0 <= k < i + 1 && (#[trigger] positions@[k]) == qq
                                && p0.registry.chunk_at(qq).needs_rebuild)) by {
                        if exists|k: int|
                            0 <= k < i + 1 && (#[trigger] positions@[k]) == qq
                                && p0.registry.chunk_at(qq).needs_rebuild {
                            let k = choose|k: int|
                                0 <= k < i + 1 && (#[trigger] positions@[k]) == qq
                                    && p0.registry.chunk_at(qq).needs_rebuild;
                            if k == i {
                                assert(qq == q);
                                if reg_pre.resident(q) {
                                    assert(reg_pre.chunk_at(q) == p0.registry.chunk_at(q));
                                    assert(false);
                                }
                            }
                        }
                    }
                }
            }
            i = i + 1;
        }
        proof {
            assert forall|q: ChunkPos|
                p0.registry.resident(q) implies (exists|k: int|
                0 <= k < n && (#[trigger] positions@[k]) == q) by {
                let k = p0.registry.index_of(q);
                assert(p0.registry.entries@[k].position == q);
                assert(positions@[k] == q);
            }
        }
    }

    /// True when, with the inbox as it stands, edits wait for `q`: either
    /// already buffered, or riding as out-of-bounds edits on an inbox
    /// chunk.
    pub open spec fn patch_waiting(self, q: ChunkPos) -> bool {
        self.pending_voxels.has_patch(q) || rerouted(self.results@, self.chunk_size as int, q).len()
            > 0
    }

    /// True when `q` is resident or about to become so when the inbox is
    /// drained.
    pub open spec fn incoming_resident(self, q: ChunkPos) -> bool {
        self.registry.resident(q) || some_result_at(self.results@, q)
    }

    /// The rebuild flag that the chunk at `q` carries once the inbox is
    /// drained: the newest inbox chunk's flag, else the resident chunk's.
    pub open spec fn settled_chunk_flagged(self, q: ChunkPos) -> bool {
        if some_result_at(self.results@, q) {
            last_result_at(self.results@, q).needs_rebuild
        } else if self.registry.resident(q) {
            self.registry.chunk_at(q).needs_rebuild
        } else {
            false
        }
    }

    /// The once-per-frame drain. Every inbox chunk is absorbed (pending
    /// mark cleared, out-of-bounds edits re-routed, mesh uploaded,
    /// inserted); buffered edits whose chunk is now resident are applied
    /// and send the chunk out for a remesh; so does every chunk whose
    /// rebuild flag is set. A coordinate ends up resident exactly when a
    /// chunk arrived or stayed for it and neither waiting edits nor a
    /// rebuild flag sent it back to the pool.
    pub fn process_chunk_updates(&mut self)
        requires
            old(self).wf(),
        ensures
            final(self).wf(),
            final(self).chunk_size == old(self).chunk_size,
            final(self).seed == old(self).seed,
            final(self).worker_count == old(self).worker_count,
            final(self).results@.len() == 0,
            forall|q: ChunkPos| #![trigger final(self).pending_chunks.is_pending(q)]
                final(self).pending_chunks.is_pending(q) <==> (old(self).pending_chunks.is_pending(
                    q,
                ) && !some_result_at(old(self).results@, q)),
            forall|q: ChunkPos| #![trigger final(self).registry.resident(q)]
                final(self).registry.resident(q) <==> (old(self).incoming_resident(q) && !old(self).patch_waiting(q) && !old(self).settled_chunk_flagged(q)),
            forall|q: ChunkPos| #![trigger final(self).registry.chunk_at(q)]
                final(self).registry.resident(q) ==> ({
                    let c2 = final(self).registry.chunk_at(q);
                    if some_result_at(old(self).results@, q) {
                        let c = last_result_at(old(self).results@, q);
                        &&& c2.position == q
                        &&& c2.chunk_size == c.chunk_size
                        &&& c2.voxels == c.voxels
                        &&& c2.needs_rebuild == c.needs_rebuild
                        &&& c2.mesh_ready == c.mesh_ready
                        &&& c2.gpu_ready
                        &&& c2.out_of_bounds_voxels@ =~= Seq::<(i32, i32, i32, VoxelType)>::empty()
                    } else {
                        c2 == old(self).registry.chunk_at(q)
                    }
                }),
            forall|q: ChunkPos| #![trigger final(self).pending_voxels.has_patch(q)]
                final(self).pending_voxels.has_patch(q) <==> (old(self).patch_waiting(q) && !old(self).incoming_resident(q)),
            forall|q: ChunkPos| #![trigger final(self).pending_voxels.patch_at(q)]
                final(self).pending_voxels.has_patch(q) ==> final(self).pending_voxels.patch_at(q)
                    == old(self).pending_voxels.patch_or_empty(q) + rerouted(
                    old(self).results@,
                    old(self).chunk_size as int,
                    q,
                ),
            final(self).work_queue@.len() >= old(self).work_queue@.len(),
            forall|t: int|
                0 <= t < old(self).work_queue@.len() ==> final(self).work_queue@[t] == old(self).work_queue@[t],
            forall|t: int|
                #![trigger final(self).work_queue@[t]]
                old(self).work_queue@.len() <= t < final(self).work_queue@.len() ==> final(self).work_queue@[t] is Remesh,
            forall|q: ChunkPos|
                old(self).incoming_resident(q) && (old(self).patch_waiting(q) || old(self).settled_chunk_flagged(q)) ==> (exists|t: int|
                    #![trigger final(self).work_queue@[t]]
                    old(self).work_queue@.len() <= t < final(self).work_queue@.len() && (
                    match final(self).work_queue@[t] {
                        WorkItem::Remesh { chunk } => chunk.position == q,
                        _ => false,
                    })),
    {
        let ghost pre = *self;
        let ghost res = self.results@;
        let ghost cs = self.chunk_size as int;
        proof {
            assert forall|q: ChunkPos|
                self.pending_voxels.patch_or_empty(q) == pre.pending_voxels.patch_or_empty(q)
                    + rerouted(res.take(0), cs, q) by {
                assert(rerouted(res.take(0), cs, q) =~= Seq::<(i32, i32, i32, VoxelType)>::empty());
                assert(pre.pending_voxels.patch_or_empty(q) + rerouted(res.take(0), cs, q)
                    =~= pre.pending_voxels.patch_or_empty(q));
            }
            assert forall|q: ChunkPos| !some_result_at(res.take(0), q) by {
                if some_result_at(res.take(0), q) {
                    let i = choose|i: int|
                        0 <= i < res.take(0).len() && (#[trigger] res.take(0)[i]).position == q;
                    assert(false);
                }
            }
        }
        let n = self.results.len();
        let mut j: usize = 0;
        while j < n
            invariant
                self.chunk_size == pre.chunk_size,
                self.seed == pre.seed,
                self.worker_count == pre.worker_count,
                self.work_queue == pre.work_queue,
                pre.wf(),
                self.registry.wf(),
                forall|q: ChunkPos|
                    self.registry.resident(q) ==> (#[trigger] self.registry.chunk_at(q)).wf()
                        && self.registry.chunk_at(q).chunk_size == self.chunk_size,
                self.pending_voxels.wf(),
                self.pending_chunks.wf(),
                cs == pre.chunk_size as int,
                res == pre.results@,
                n == res.len(),
                j <= n,
                self.results@ == res.skip(j as int),
                forall|q: ChunkPos| #![trigger self.pending_chunks.is_pending(q)]
                    self.pending_chunks.is_pending(q) <==> (pre.pending_chunks.is_pending(q)
                        && !some_result_at(res.take(j as int), q)),
                forall|q: ChunkPos| #![trigger self.registry.resident(q)]
                    self.registry.resident(q) <==> (pre.registry.resident(q) || some_result_at(
                        res.take(j as int),
                        q,
                    )),
                forall|q: ChunkPos| #![trigger self.registry.chunk_at(q)]
                    self.registry.resident(q) && some_result_at(res.take(j as int), q) ==> ({
                        let c2 = self.registry.chunk_at(q);
                        let c = last_result_at(res.take(j as int), q);
                        &&& c2.position == q
                        &&& c2.chunk_size == c.chunk_size
                        &&& c2.voxels == c.voxels
                        &&& c2.needs_rebuild == c.needs_rebuild
                        &&& c2.mesh_ready == c.mesh_ready
                        &&& c2.gpu_ready
                        &&& c2.out_of_bounds_voxels@ =~= Seq::<(i32, i32, i32, VoxelType)>::empty()
                    }),
                forall|q: ChunkPos|
                    self.registry.resident(q) && !some_result_at(res.take(j as int), q)
                        ==> self.registry.chunk_at(q) == pre.registry.chunk_at(q),
                forall|q: ChunkPos| #![trigger self.pending_voxels.patch_or_empty(q)]
                    self.pending_voxels.patch_or_empty(q) == pre.pending_voxels.patch_or_empty(q)
                        + rerouted(res.take(j as int), cs, q),
                forall|q: ChunkPos| #![trigger self.pending_voxels.has_patch(q)]
                    self.pending_voxels.has_patch(q) <==> (pre.pending_voxels.has_patch(q)
                        || rerouted(res.take(j as int), cs, q).len() > 0),
            decreases n - j,
        {
            let ghost mid = *self;
            let c = self.results.remove(0);
            proof {
                assert(res.skip(j as int)[0] == res[j as int]);
                assert(c == res[j as int]);
                assert(self.results@ =~= res.skip(j as int + 1));
                assert(c.wf() && c.chunk_size == pre.chunk_size) by {
                    assert(pre.results@[j as int] == res[j as int]);
                }
                lemma_results_take_step(res, j as int, cs);
            }
            self.absorb_result(c);
            proof {
                assert forall|q: ChunkPos| #![trigger self.pending_voxels.patch_or_empty(q)]
                    self.pending_voxels.patch_or_empty(q) == pre.pending_voxels.patch_or_empty(q)
                        + rerouted(res.take(j as int + 1), cs, q) by {
                    assert(mid.pending_voxels.patch_or_empty(q) == pre.pending_voxels.patch_or_empty(
                        q,
                    ) + rerouted(res.take(j as int), cs, q));
                    assert(self.pending_voxels.patch_or_empty(q) == mid.pending_voxels.patch_or_empty(
                        q,
                    ) + crate::work::edits_toward(c.out_of_bounds_voxels@, cs, q));
                    assert(rerouted(res.take(j as int + 1), cs, q) == rerouted(
                        res.take(j as int),
                        cs,
                        q,
                    ) + crate::work::edits_toward(c.out_of_bounds_voxels@, cs, q));
                    assert((pre.pending_voxels.patch_or_empty(q) + rerouted(res.take(j as int), cs, q))
                        + crate::work::edits_toward(c.out_of_bounds_voxels@, cs, q)
                        =~= pre.pending_voxels.patch_or_empty(q) + (rerouted(res.take(j as int), cs, q)
                        + crate::work::edits_toward(c.out_of_bounds_voxels@, cs, q)));
                }
                assert forall|q: ChunkPos| #![trigger self.pending_voxels.has_patch(q)]
                    self.pending_voxels.has_patch(q) <==> (pre.pending_voxels.has_patch(q)
                        || rerouted(res.take(j as int + 1), cs, q).len() > 0) by {
                    assert(mid.pending_voxels.has_patch(q) <==> (pre.pending_voxels.has_patch(q)
                        || rerouted(res.take(j as int), cs, q).len() > 0));
                    assert(self.pending_voxels.has_patch(q) <==> (mid.pending_voxels.has_patch(q)
                        || crate::work::edits_toward(c.out_of_bounds_voxels@, cs, q).len() > 0));
                    assert(rerouted(res.take(j as int + 1), cs, q) == rerouted(
                        res.take(j as int),
                        cs,
                        q,
                    ) + crate::work::edits_toward(c.out_of_bounds_voxels@, cs, q));
                }
                assert forall|q: ChunkPos| #![trigger self.registry.chunk_at(q)]
                    self.registry.resident(q) && some_result_at(res.take(j as int + 1), q) implies ({
                    let c2 = self.registry.chunk_at(q);
                    let cc = last_result_at(res.take(j as int + 1), q);
                    &&& c2.position == q
                    &&& c2.chunk_size == cc.chunk_size
                    &&& c2.voxels == cc.voxels
                    &&& c2.needs_rebuild == cc.needs_rebuild
                    &&& c2.mesh_ready == cc.mesh_ready
                    &&& c2.gpu_ready
                    &&& c2.out_of_bounds_voxels@ =~= Seq::<(i32, i32, i32, VoxelType)>::empty()
                }) by {
                    if q == c.position {
                        assert(last_result_at(res.take(j as int + 1), q) == c);
                    } else {
                        assert(self.registry.chunk_at(q) == mid.registry.chunk_at(q));
                        assert(some_result_at(res.take(j as int), q));
                        assert(mid.registry.resident(q));
                    }
                }
            }
            j = j + 1;
        }
        proof {
            assert(res.take(n as int) =~= res);
            assert(res.take(n as int) == res);
            assert(self.results@ =~= Seq::<Chunk>::empty());
        }
        let ghost post_a = *self;
        self.apply_pending_patches();
        let ghost post_b = *self;
        self.dispatch_rebuilds();
        proof {
            assert forall|q: ChunkPos| #![trigger final(self).registry.resident(q)]
                self.registry.resident(q) <==> (pre.incoming_resident(q) && !pre.patch_waiting(q)
                    && !pre.settled_chunk_flagged(q)) by {
                assert(post_a.registry.resident(q) <==> pre.incoming_resident(q));
                assert(post_a.pending_voxels.has_patch(q) <==> pre.patch_waiting(q));
                assert(post_b.registry.resident(q) <==> (post_a.registry.resident(q)
                    && !post_a.pending_voxels.has_patch(q)));
                if post_b.registry.resident(q) {
                    assert(post_b.registry.chunk_at(q) == post_a.registry.chunk_at(q));
                    assert(post_a.registry.chunk_at(q).needs_rebuild == pre.settled_chunk_flagged(
                        q,
                    ));
                }
            }
            assert forall|q: ChunkPos| #![trigger final(self).registry.chunk_at(q)]
                self.registry.resident(q) implies ({
                let c2 = self.registry.chunk_at(q);
                if some_result_at(res, q) {
                    let c = last_result_at(res, q);
                    &&& c2.position == q
                    &&& c2.chunk_size == c.chunk_size
                    &&& c2.voxels == c.voxels
                    &&& c2.needs_rebuild == c.needs_rebuild
                    &&& c2.mesh_ready == c.mesh_ready
                    &&& c2.gpu_ready
                    &&& c2.out_of_bounds_voxels@ =~= Seq::<(i32, i32, i32, VoxelType)>::empty()
                } else {
                    c2 == pre.registry.chunk_at(q)
                }
            }) by {
                assert(post_b.registry.resident(q));
                assert(post_a.registry.resident(q));
                assert(self.registry.chunk_at(q) == post_b.registry.chunk_at(q));
                assert(post_b.registry.chunk_at(q) == post_a.registry.chunk_at(q));
            }
            assert forall|q: ChunkPos| #![trigger final(self).pending_voxels.has_patch(q)]
                self.pending_voxels.has_patch(q) <==> (pre.patch_waiting(q)
                    && !pre.incoming_resident(q)) by {
                assert(post_b.pending_voxels.has_patch(q) <==> (post_a.pending_voxels.has_patch(q)
                    && !post_a.registry.resident(q)));
                assert(self.pending_voxels == post_b.pending_voxels);
            }
            assert forall|q: ChunkPos| #![trigger final(self).pending_voxels.patch_at(q)]
                self.pending_voxels.has_patch(q) implies self.pending_voxels.patch_at(q)
                == pre.pending_voxels.patch_or_empty(q) + rerouted(res, cs, q) by {
                assert(self.pending_voxels == post_b.pending_voxels);
                assert(post_b.pending_voxels.patch_at(q) == post_a.pending_voxels.patch_at(q));
                assert(post_a.pending_voxels.patch_or_empty(q) == pre.pending_voxels.patch_or_empty(
                    q,
                ) + rerouted(res, cs, q));
                assert(post_a.pending_voxels.has_patch(q));
            }
            assert forall|q: ChunkPos|
                pre.incoming_resident(q) && (pre.patch_waiting(q) || pre.settled_chunk_flagged(q))
                    implies (exists|t: int|
                #![trigger final(self).work_queue@[t]]
                pre.work_queue@.len() <= t < self.work_queue@.len() && (
                match self.work_queue@[t] {
                    WorkItem::Remesh { chunk } => chunk.position == q,
                    _ => false,
                })) by {
                assert(post_a.registry.resident(q));
                if pre.patch_waiting(q) {
                    assert(post_a.pending_voxels.has_patch(q));
                    let t = choose|t: int|
                        #![trigger post_b.work_queue@[t]]
                        post_a.work_queue@.len() <= t < post_b.work_queue@.len() && (
                        match post_b.work_queue@[t] {
                            WorkItem::Remesh { chunk } => chunk.position == q,
                            _ => false,
                        });
                    assert(self.work_queue@[t] == post_b.work_queue@[t]);
                    assert(post_a.work_queue == pre.work_queue);
                } else {
                    assert(!post_a.pending_voxels.has_patch(q));
                    assert(post_b.registry.resident(q));
                    assert(post_b.registry.chunk_at(q) == post_a.registry.chunk_at(q));
                    assert(post_b.registry.chunk_at(q).needs_rebuild);
                    let t = choose|t: int|
                        #![trigger self.work_queue@[t]]
                        post_b.work_queue@.len() <= t < self.work_queue@.len() && (
                        match self.work_queue@[t] {
                            WorkItem::Remesh { chunk } => chunk.position == q,
                            _ => false,
                        });
                    assert(pre.work_queue@.len() <= t);
                }
            }
        }
    }

    /// Per-frame housekeeping around the player: evict chunks beyond
    /// Chebyshev distance 4, then, while fewer than 400 chunks are
    /// resident, dispatch generation of the nearest missing chunk.
    pub fn update_chunks_around_player(&mut self, player_cx: i32, player_cy: i32, player_cz: i32)
        requires
            old(self).wf(),
            i32::MIN + 5 <= player_cx <= i32::MAX - 5,
            i32::MIN + 5 <= player_cy <= i32::MAX - 5,
            i32::MIN + 5 <= player_cz <= i32::MAX - 5,
        ensures
            final(self).wf(),
            final(self).chunk_size == old(self).chunk_size,
            final(self).seed == old(self).seed,
            final(self).worker_count == old(self).worker_count,
            final(self).results == old(self).results,
            forall|q: ChunkPos| #![trigger final(self).registry.resident(q)]
                final(self).registry.resident(q) <==> (old(self).registry.resident(q) && chebyshev(
                    q,
                    ChunkPos { x: player_cx, y: player_cy, z: player_cz },
                ) <= 4),
            forall|q: ChunkPos|
                final(self).registry.resident(q) ==> final(self).registry.chunk_at(q) == old(self).registry.chunk_at(q),
            final(self).registry.count() >= 400 ==> *final(self) == (World {
                registry: final(self).registry,
                ..*old(self)
            }),
            ({
                let center = (ChunkPos { x: player_cx, y: player_cy, z: player_cz });
                final(self).registry.count() < 400 ==> {
                    &&& (final(self).work_queue@.len() == old(self).work_queue@.len() + 1 <==> (
                    exists|dx: int, dy: int, dz: int|
                        in_search_ball(dx, dy, dz) && !final(self).registry.resident(
                            #[trigger] offset_pos(center, dx, dy, dz),
                        ) && !old(self).pending_chunks.is_pending(offset_pos(center, dx, dy, dz))))
                    &&& (final(self).work_queue@.len() == old(self).work_queue@.len() ==> *final(self) == (World { registry: final(self).registry, ..*old(self) }))
                    &&& forall|i: int|
                        0 <= i < old(self).work_queue@.len() ==> final(self).work_queue@[i] == old(self).work_queue@[i]
                    &&& (final(self).work_queue@.len() > old(self).work_queue@.len() ==> (
                    match final(self).work_queue@.last() {
                        WorkItem::Generate { position, seed_edits } => {
                            let dx = position.x - center.x;
                            let dy = position.y - center.y;
                            let dz = position.z - center.z;
                            &&& in_search_ball(dx, dy, dz)
                            &&& !final(self).registry.resident(position)
                            &&& !old(self).pending_chunks.is_pending(position)
                            &&& forall|ax: int, ay: int, az: int|
                                in_search_ball(ax, ay, az) && !final(self).registry.resident(
                                    #[trigger] offset_pos(center, ax, ay, az),
                                ) && !old(self).pending_chunks.is_pending(
                                    offset_pos(center, ax, ay, az),
                                ) ==> (crate::coords::dist_sq(dx, dy, dz) < crate::coords::dist_sq(
                                    ax,
                                    ay,
                                    az,
                                ) || (crate::coords::dist_sq(dx, dy, dz) == crate::coords::dist_sq(
                                    ax,
                                    ay,
                                    az,
                                ) && ((ax == dx && ay == dy && az == dz) || lex_before(
                                    dx,
                                    dy,
                                    dz,
                                    ax,
                                    ay,
                                    az,
                                ))))
                        },
                        _ => false,
                    }))
                }
            }),
    {
        let ghost center = ChunkPos { x: player_cx, y: player_cy, z: player_cz };
        self.remove_distant_chunks(player_cx, player_cy, player_cz, 4);
        let ghost mid = *self;
        if self.registry.len() < 400 {
            self.generate_nearest_missing_chunk_simple(player_cx, player_cy, player_cz);
            proof {
                assert(final(self).registry == mid.registry);
                assert forall|dx: int, dy: int, dz: int|
                    mid.missing_at(center, dx, dy, dz) == (!final(self).registry.resident(
                        #[trigger] offset_pos(center, dx, dy, dz),
                    ) && !mid.pending_chunks.is_pending(offset_pos(center, dx, dy, dz))) by {}
            }
        }
    }

    /// A coordinate whose chunk is not resident (never generated, or in
    /// flight) reads as the air sentinel.
    pub proof fn lemma_unloaded_reads_air(self, wx: int, wy: int, wz: int)
        requires
            !self.registry.resident(self.target_chunk(wx, wy, wz)),
        ensures
            self.world_voxel(wx, wy, wz) == VoxelType::Air,
    {
    }

    /// In a world where nothing is resident (such as a fresh one), every
    /// voxel query returns the air sentinel.
    pub proof fn lemma_empty_world_reads_air(self, wx: int, wy: int, wz: int)
        requires
            forall|p: ChunkPos| !self.registry.resident(p),
        ensures
            self.world_voxel(wx, wy, wz) == VoxelType::Air,
    {
    }

    /// Eventual consistency of asynchronous edits, in one drain cycle:
    /// from a quiescent coordinator (empty queue and inbox, no edits
    /// buffered for the target, and a clean resident target chunk), an
    /// asynchronous edit that is accepted becomes visible to `get_voxel`
    /// after its work item is performed and one `process_chunk_updates`
    /// drain. The body is exactly that pipeline, run on the calling
    /// thread.
    pub fn run_async_edit_cycle(&mut self, wx: i32, wy: i32, wz: i32, voxel_type: VoxelType) -> (r:
        bool)
        requires
            old(self).wf(),
            old(self).work_queue@.len() == 0,
            old(self).results@.len() == 0,
            !old(self).pending_voxels.has_patch(
                old(self).target_chunk(wx as int, wy as int, wz as int),
            ),
            old(self).registry.resident(old(self).target_chunk(wx as int, wy as int, wz as int))
                ==> !old(self).registry.chunk_at(
                old(self).target_chunk(wx as int, wy as int, wz as int),
            ).needs_rebuild && old(self).registry.chunk_at(
                old(self).target_chunk(wx as int, wy as int, wz as int),
            ).out_of_bounds_voxels@.len() == 0,
        ensures
            final(self).wf(),
            r == old(self).registry.resident(
                old(self).target_chunk(wx as int, wy as int, wz as int),
            ),
            r ==> final(self).world_voxel(wx as int, wy as int, wz as int) == voxel_type,
    {
        let ghost pre = *self;
        let ghost p = pre.target_chunk(wx as int, wy as int, wz as int);
        let r = self.set_voxel_async(wx, wy, wz, voxel_type);
        match self.take_work() {
            Some(item) => {
                let (mut out, _keep) = crate::work::perform_work(item, self.chunk_size);
                proof {
                    assert(out@.len() == 1);
                }
                let c1 = out.remove(0);
                self.deliver_chunk(c1);
            },
            None => {},
        }
        let ghost staged = *self;
        self.process_chunk_updates();
        proof {
            if r {
                let c0 = pre.registry.chunk_at(p);
                let res = staged.results@;
                let c1 = res[0];
                assert(res.len() == 1);
                assert(c1.position == p);
                assert(some_result_at(res, p)) by {
                    assert((res[0]).position == p);
                }
                assert(last_result_at(res, p) == c1);
                assert(staged.incoming_resident(p));
                assert(!staged.patch_waiting(p)) by {
                    assert(res.drop_last() =~= Seq::<Chunk>::empty());
                    assert(res.drop_last() == Seq::<Chunk>::empty());
                    assert(res.last() == c1);
                    assert(rerouted(Seq::<Chunk>::empty(), staged.chunk_size as int, p) =~= Seq::<
                        (i32, i32, i32, VoxelType),
                    >::empty());
                    assert(rerouted(res, staged.chunk_size as int, p) =~= crate::work::edits_toward(
                        c1.out_of_bounds_voxels@,
                        staged.chunk_size as int,
                        p,
                    ));
                    assert(c1.out_of_bounds_voxels@.len() == 0);
                    assert(crate::work::edits_toward(
                        c1.out_of_bounds_voxels@,
                        staged.chunk_size as int,
                        p,
                    ) =~= Seq::<(i32, i32, i32, VoxelType)>::empty());
                }
                assert(!staged.settled_chunk_flagged(p));
                assert(self.registry.resident(p));
                let c2 = self.registry.chunk_at(p);
                assert(c2.voxels == c1.voxels);
                assert(c2.chunk_size == c1.chunk_size);
                let cs = pre.chunk_size as int;
                assert(self.target_chunk(wx as int, wy as int, wz as int) == p);
                assert(c2.voxel_at_world(wx as int, wy as int, wz as int) == voxel_type);
            }
        }
        r
    }

    /// Queue one `Exit` per worker: the shutdown signal. Every worker
    /// consumes exactly one `Exit` and terminates; fewer `Exit` items than
    /// workers would leave some worker blocked forever.
    pub fn send_exit_signals(&mut self)
        requires
            old(self).wf(),
        ensures
            final(self).wf(),
            final(self).chunk_size == old(self).chunk_size,
            final(self).seed == old(self).seed,
            final(self).worker_count == old(self).worker_count,
            final(self).registry == old(self).registry,
            final(self).pending_voxels == old(self).pending_voxels,
            final(self).pending_chunks == old(self).pending_chunks,
            final(self).results == old(self).results,
            final(self).work_queue@.len() == old(self).work_queue@.len() + old(self).worker_count,
            forall|i: int|
                0 <= i < old(self).work_queue@.len() ==> final(self).work_queue@[i] == old(self).work_queue@[i],
            forall|i: int|
                old(self).work_queue@.len() <= i < final(self).work_queue@.len() ==> final(self).work_queue@[i] is Exit,
    {
        let n = self.worker_count;
        let mut k: usize = 0;
        while k < n
            invariant
                self.chunk_size == old(self).chunk_size,
                self.seed == old(self).seed,
                self.worker_count == old(self).worker_count,
                self.registry == old(self).registry,
                self.pending_voxels == old(self).pending_voxels,
                self.pending_chunks == old(self).pending_chunks,
                self.results == old(self).results,
                old(self).wf(),
                k <= n,
                self.work_queue@.len() == old(self).work_queue@.len() + k,
                forall|i: int|
                    0 <= i < old(self).work_queue@.len() ==> self.work_queue@[i] == old(self).work_queue@[i],
                forall|i: int|
                    old(self).work_queue@.len() <= i < self.work_queue@.len()
                        ==> self.work_queue@[i] is Exit,
            decreases n - k,
        {
            self.work_queue.push(WorkItem::Exit);
            k = k + 1;
        }
    }
}

} // verus!
