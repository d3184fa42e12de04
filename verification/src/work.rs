//! The worker protocol: work items and what one worker does with each.
//!
//! A worker consumes one item at a time and produces zero or more finished
//! chunks: one for `Generate`, `Remesh` and `ModifyVoxel`, one per touched
//! chunk for `ModifyVoxelsBatch`, and none for `Exit`, which ends the
//! worker. `perform_work` is that per-item step as a pure function;
//! `worker_session` and `run_pool` run it the way the thread pool does,
//! over an explicit queue.

use vstd::prelude::*;

use crate::chunk::{terrain_voxel, Chunk, MAX_CHUNK_SIZE};
use crate::coords::{chunk_axis, local_axis, ChunkPos};
use crate::voxel::VoxelType;

verus! {

/// One unit of work handed to the pool.
pub enum WorkItem {
    /// Build the chunk at `position` from scratch: terrain, then the
    /// buffered edits that waited for this chunk, then its mesh.
    Generate { position: ChunkPos, seed_edits: Option<Vec<(i32, i32, i32, VoxelType)>> },
    /// Rebuild the mesh of a chunk whose grid is already correct.
    Remesh { chunk: Chunk },
    /// Write one voxel at an absolute world position into an owned chunk,
    /// then rebuild its mesh.
    ModifyVoxel { chunk: Chunk, wx: i32, wy: i32, wz: i32, voxel_type: VoxelType },
    /// Apply a batch of offset-relative edits to the owned chunks they
    /// fall into, rebuilding each touched chunk's mesh. Chunks no edit
    /// falls into are dropped, and edits whose chunk was not supplied are
    /// lost.
    ModifyVoxelsBatch {
        updates: Vec<(i32, i32, i32, VoxelType)>,
        offset: (i32, i32, i32),
        chunks: Vec<Chunk>,
    },
    /// End one worker; it consumes this item and pushes nothing.
    Exit,
}

/// The world position of an offset-relative edit stays within `i32`.
pub open spec fn edit_fits(e: (i32, i32, i32, VoxelType), ox: int, oy: int, oz: int) -> bool {
    &&& i32::MIN <= e.0 + ox <= i32::MAX
    &&& i32::MIN <= e.1 + oy <= i32::MAX
    &&& i32::MIN <= e.2 + oz <= i32::MAX
}

/// The chunk that the edit `e`, shifted by the offset, falls into.
pub open spec fn edit_target(
    e: (i32, i32, i32, VoxelType),
    ox: int,
    oy: int,
    oz: int,
    cs: int,
) -> ChunkPos {
    ChunkPos {
        x: chunk_axis(e.0 + ox, cs) as i32,
        y: chunk_axis(e.1 + oy, cs) as i32,
        z: chunk_axis(e.2 + oz, cs) as i32,
    }
}

/// True when the edit `e`, shifted by the offset, lands exactly on local
/// cell `(lx, ly, lz)` of the chunk at `pos`.
pub open spec fn edit_hits_cell(
    e: (i32, i32, i32, VoxelType),
    ox: int,
    oy: int,
    oz: int,
    cs: int,
    pos: ChunkPos,
    lx: int,
    ly: int,
    lz: int,
) -> bool {
    &&& edit_target(e, ox, oy, oz, cs) == pos
    &&& local_axis(e.0 + ox, cs) == lx
    &&& local_axis(e.1 + oy, cs) == ly
    &&& local_axis(e.2 + oz, cs) == lz
}

/// The voxel type written last into local cell `(lx, ly, lz)` of the chunk
/// at `pos` by the given edit list, if any edit lands there. Later edits
/// win.
pub open spec fn last_edit_for_cell(
    edits: Seq<(i32, i32, i32, VoxelType)>,
    ox: int,
    oy: int,
    oz: int,
    cs: int,
    pos: ChunkPos,
    lx: int,
    ly: int,
    lz: int,
) -> Option<VoxelType>
    decreases edits.len(),
{
    if edits.len() == 0 {
        None
    } else if edit_hits_cell(edits.last(), ox, oy, oz, cs, pos, lx, ly, lz) {
        Some(edits.last().3)
    } else {
        last_edit_for_cell(edits.drop_last(), ox, oy, oz, cs, pos, lx, ly, lz)
    }
}

/// The edits of the list that do not fall into the chunk at `pos`, in
/// order: what `Generate` routes onward as out-of-bounds edits.
pub open spec fn edits_outside(
    edits: Seq<(i32, i32, i32, VoxelType)>,
    cs: int,
    pos: ChunkPos,
) -> Seq<(i32, i32, i32, VoxelType)>
    decreases edits.len(),
{
    if edits.len() == 0 {
        Seq::empty()
    } else {
        let rest = edits_outside(edits.drop_last(), cs, pos);
        if edit_target(edits.last(), 0, 0, 0, cs) == pos {
            rest
        } else {
            rest.push(edits.last())
        }
    }
}

/// The edits of the list that fall into the chunk at `pos`, in order:
/// what re-routing a finished chunk's out-of-bounds list buffers for each
/// target chunk.
pub open spec fn edits_toward(
    edits: Seq<(i32, i32, i32, VoxelType)>,
    cs: int,
    pos: ChunkPos,
) -> Seq<(i32, i32, i32, VoxelType)>
    decreases edits.len(),
{
    if edits.len() == 0 {
        Seq::empty()
    } else {
        let rest = edits_toward(edits.drop_last(), cs, pos);
        if edit_target(edits.last(), 0, 0, 0, cs) == pos {
            rest.push(edits.last())
        } else {
            rest
        }
    }
}

/// True when at least one edit of the list, shifted by the offset, falls
/// into the chunk at `p`.
#[verifier::opaque]
pub open spec fn some_edit_targets(
    edits: Seq<(i32, i32, i32, VoxelType)>,
    ox: int,
    oy: int,
    oz: int,
    cs: int,
    p: ChunkPos,
) -> bool {
    exists|i: int| 0 <= i < edits.len() && #[trigger] edit_target(edits[i], ox, oy, oz, cs) == p
}

/// Well-formedness of a work item for chunk edge `cs`: every chunk it
/// owns matches the world's edge length, batch offsets cannot overflow,
/// and batch chunks are pairwise distinct.
pub open spec fn item_wf(item: WorkItem, cs: int) -> bool {
    match item {
        WorkItem::Generate { position, seed_edits } => true,
        WorkItem::Remesh { chunk } => chunk.wf() && chunk.chunk_size == cs,
        WorkItem::ModifyVoxel { chunk, wx, wy, wz, voxel_type } => chunk.wf() && chunk.chunk_size
            == cs,
        WorkItem::ModifyVoxelsBatch { updates, offset, chunks } => {
            &&& forall|i: int|
                0 <= i < updates@.len() ==> edit_fits(
                    updates@[i],
                    offset.0 as int,
                    offset.1 as int,
                    offset.2 as int,
                )
            &&& forall|j: int| 0 <= j < chunks@.len() ==> (#[trigger] chunks@[j]).wf()
                && chunks@[j].chunk_size == cs
            &&& forall|j1: int, j2: int|
                0 <= j1 < j2 < chunks@.len() ==> chunks@[j1].position != chunks@[j2].position
        },
        WorkItem::Exit => true,
    }
}

/// `take(i + 1)` peels to `take(i)` plus the element at `i`; lets the
/// front-to-back loops line up with the back-peeling recursion of
/// `last_edit_for_cell` and `edits_outside`.
pub proof fn lemma_take_step<A>(s: Seq<A>, i: int)
    requires
        0 <= i < s.len(),
    ensures
        s.take(i + 1).drop_last() =~= s.take(i),
        s.take(i + 1).last() == s[i],
{
}

/// Apply to `chunk` every edit of `updates` (shifted by the offset) that
/// falls inside it. Afterwards each cell holds the last edit that landed
/// on it, or its old voxel; reports whether any edit landed in the chunk.
pub(crate) fn apply_updates_to_chunk(
    chunk: &mut Chunk,
    updates: &Vec<(i32, i32, i32, VoxelType)>,
    ox: i32,
    oy: i32,
    oz: i32,
) -> (touched: bool)
    requires
        old(chunk).wf(),
        forall|i: int|
            0 <= i < updates@.len() ==> edit_fits(updates@[i], ox as int, oy as int, oz as int),
    ensures
        final(chunk).wf(),
        final(chunk).position == old(chunk).position,
        final(chunk).chunk_size == old(chunk).chunk_size,
        final(chunk).out_of_bounds_voxels == old(chunk).out_of_bounds_voxels,
        final(chunk).needs_rebuild == old(chunk).needs_rebuild,
        touched == some_edit_targets(
            updates@,
            ox as int,
            oy as int,
            oz as int,
            old(chunk).chunk_size as int,
            old(chunk).position,
        ),
        !touched ==> *final(chunk) == *old(chunk),
        forall|lx: int, ly: int, lz: int|
            old(chunk).in_bounds(lx, ly, lz) ==> final(chunk).voxel_at(lx, ly, lz) == (
            match last_edit_for_cell(
                updates@,
                ox as int,
                oy as int,
                oz as int,
                old(chunk).chunk_size as int,
                old(chunk).position,
                lx,
                ly,
                lz,
            ) {
                Some(t) => t,
                None => old(chunk).voxel_at(lx, ly, lz),
            }),
    {
        let ghost cs = old(chunk).chunk_size as int;
        let ghost pos = old(chunk).position;
        proof {
            reveal(some_edit_targets);
            assert(!some_edit_targets(updates@.take(0), ox as int, oy as int, oz as int, cs, pos));
        }
        let n = updates.len();
        let mut touched = false;
        let mut i: usize = 0;
        while i < n
            invariant
                chunk.wf(),
                chunk.position == old(chunk).position,
                chunk.chunk_size == old(chunk).chunk_size,
                chunk.out_of_bounds_voxels == old(chunk).out_of_bounds_voxels,
                chunk.needs_rebuild == old(chunk).needs_rebuild,
                cs == old(chunk).chunk_size as int,
                pos == old(chunk).position,
                n == updates@.len(),
                i <= n,
                forall|k: int|
                    0 <= k < updates@.len() ==> edit_fits(
                        updates@[k],
                        ox as int,
                        oy as int,
                        oz as int,
                    ),
                touched == some_edit_targets(
                    updates@.take(i as int),
                    ox as int,
                    oy as int,
                    oz as int,
                    cs,
                    pos,
                ),
                !touched ==> *chunk == *old(chunk),
                forall|lx: int, ly: int, lz: int|
                    old(chunk).in_bounds(lx, ly, lz) ==> chunk.voxel_at(lx, ly, lz) == (
                    match last_edit_for_cell(
                        updates@.take(i as int),
                        ox as int,
                        oy as int,
                        oz as int,
                        cs,
                        pos,
                        lx,
                        ly,
                        lz,
                    ) {
                        Some(t) => t,
                        None => old(chunk).voxel_at(lx, ly, lz),
                    }),
            decreases n - i,
        {
            let e = updates[i];
            let wx = e.0 + ox;
            let wy = e.1 + oy;
            let wz = e.2 + oz;
            let cs_exec = chunk.chunk_size as i32;
            let target = crate::coords::world_to_chunk(wx, wy, wz, cs_exec);
            proof {
                lemma_take_step(updates@, i as int);
            }
            if target.x == chunk.position.x && target.y == chunk.position.y && target.z
                == chunk.position.z {
                let lx = crate::coords::world_to_local_axis(wx, cs_exec);
                let ly = crate::coords::world_to_local_axis(wy, cs_exec);
                let lz = crate::coords::world_to_local_axis(wz, cs_exec);
                chunk.set_voxel(lx, ly, lz, e.3);
                touched = true;
                proof {
                    assert(edit_target(updates@[i as int], ox as int, oy as int, oz as int, cs)
                        == pos);
                    assert(some_edit_targets(
                        updates@.take(i as int + 1),
                        ox as int,
                        oy as int,
                        oz as int,
                        cs,
                        pos,
                    )) by {
                        reveal(some_edit_targets);
                        assert(updates@.take(i as int + 1)[i as int] == updates@[i as int]);
                    }
                }
            } else {
                proof {
                    assert(edit_target(updates@[i as int], ox as int, oy as int, oz as int, cs)
                        != pos);
                    assert(some_edit_targets(
                        updates@.take(i as int + 1),
                        ox as int,
                        oy as int,
                        oz as int,
                        cs,
                        pos,
                    ) == some_edit_targets(
                        updates@.take(i as int),
                        ox as int,
                        oy as int,
                        oz as int,
                        cs,
                        pos,
                    )) by {
                        reveal(some_edit_targets);
                        if some_edit_targets(
                            updates@.take(i as int),
                            ox as int,
                            oy as int,
                            oz as int,
                            cs,
                            pos,
                        ) {
                            let k = choose|k: int|
                                0 <= k < updates@.take(i as int).len() && #[trigger] edit_target(
                                    updates@.take(i as int)[k],
                                    ox as int,
                                    oy as int,
                                    oz as int,
                                    cs,
                                ) == pos;
                            assert(updates@.take(i as int + 1)[k] == updates@.take(i as int)[k]);
                        }
                        if some_edit_targets(
                            updates@.take(i as int + 1),
                            ox as int,
                            oy as int,
                            oz as int,
                            cs,
                            pos,
                        ) {
                            let k = choose|k: int|
                                0 <= k < updates@.take(i as int + 1).len() && #[trigger] edit_target(
                                    updates@.take(i as int + 1)[k],
                                    ox as int,
                                    oy as int,
                                    oz as int,
                                    cs,
                                ) == pos;
                            if k < i as int {
                                assert(updates@.take(i as int)[k] == updates@.take(i as int + 1)[k]);
                            } else {
                                assert(updates@.take(i as int + 1)[k] == updates@[i as int]);
                                assert(false);
                            }
                        }
                    }
                }
            }
            i = i + 1;
        }
        proof {
            assert(updates@.take(n as int) =~= updates@);
        }
        touched
    }

/// Apply the seed edits of a `Generate` item to a freshly generated
/// chunk: edits that fall inside the chunk land in their cell (later ones
/// win), the rest are appended to the chunk's out-of-bounds list in order,
/// so that the coordinator can re-route them.
fn seed_chunk_edits(chunk: &mut Chunk, edits: &Vec<(i32, i32, i32, VoxelType)>)
    requires
        old(chunk).wf(),
    ensures
        final(chunk).wf(),
        final(chunk).position == old(chunk).position,
        final(chunk).chunk_size == old(chunk).chunk_size,
        final(chunk).needs_rebuild == old(chunk).needs_rebuild,
        !old(chunk).gpu_ready ==> !final(chunk).gpu_ready,
        final(chunk).out_of_bounds_voxels@ == old(chunk).out_of_bounds_voxels@ + edits_outside(
            edits@,
            old(chunk).chunk_size as int,
            old(chunk).position,
        ),
        forall|lx: int, ly: int, lz: int|
            old(chunk).in_bounds(lx, ly, lz) ==> final(chunk).voxel_at(lx, ly, lz) == (
            match last_edit_for_cell(
                edits@,
                0,
                0,
                0,
                old(chunk).chunk_size as int,
                old(chunk).position,
                lx,
                ly,
                lz,
            ) {
                Some(t) => t,
                None => old(chunk).voxel_at(lx, ly, lz),
            }),
{
    let ghost cs = old(chunk).chunk_size as int;
    let ghost pos = old(chunk).position;
    let n = edits.len();
    let mut i: usize = 0;
    while i < n
        invariant
            chunk.wf(),
            chunk.position == old(chunk).position,
            chunk.chunk_size == old(chunk).chunk_size,
            chunk.needs_rebuild == old(chunk).needs_rebuild,
            !old(chunk).gpu_ready ==> !chunk.gpu_ready,
            cs == old(chunk).chunk_size as int,
            pos == old(chunk).position,
            n == edits@.len(),
            i <= n,
            chunk.out_of_bounds_voxels@ == old(chunk).out_of_bounds_voxels@ + edits_outside(
                edits@.take(i as int),
                cs,
                pos,
            ),
            forall|lx: int, ly: int, lz: int|
                old(chunk).in_bounds(lx, ly, lz) ==> chunk.voxel_at(lx, ly, lz) == (
                match last_edit_for_cell(edits@.take(i as int), 0, 0, 0, cs, pos, lx, ly, lz) {
                    Some(t) => t,
                    None => old(chunk).voxel_at(lx, ly, lz),
                }),
        decreases n - i,
    {
        let e = edits[i];
        let cs_exec = chunk.chunk_size as i32;
        let target = crate::coords::world_to_chunk(e.0, e.1, e.2, cs_exec);
        proof {
            lemma_take_step(edits@, i as int);
        }
        if target.x == chunk.position.x && target.y == chunk.position.y && target.z
            == chunk.position.z {
            let lx = crate::coords::world_to_local_axis(e.0, cs_exec);
            let ly = crate::coords::world_to_local_axis(e.1, cs_exec);
            let lz = crate::coords::world_to_local_axis(e.2, cs_exec);
            chunk.set_voxel(lx, ly, lz, e.3);
        } else {
            chunk.out_of_bounds_voxels.push(e);
        }
        i = i + 1;
    }
    proof {
        assert(edits@.take(n as int) =~= edits@);
    }
}

/// `after` is `before` with exactly the listed absolute-coordinate edits
/// that fall into it applied, in order, and nothing else changed.
pub open spec fn edits_applied_chunk(
    after: Chunk,
    before: Chunk,
    edits: Seq<(i32, i32, i32, VoxelType)>,
) -> bool {
    let cs = before.chunk_size as int;
    &&& after.position == before.position
    &&& after.chunk_size == before.chunk_size
    &&& after.out_of_bounds_voxels == before.out_of_bounds_voxels
    &&& after.needs_rebuild == before.needs_rebuild
    &&& after.wf()
    &&& forall|lx: int, ly: int, lz: int|
        before.in_bounds(lx, ly, lz) ==> after.voxel_at(lx, ly, lz) == (
        match last_edit_for_cell(edits, 0, 0, 0, cs, before.position, lx, ly, lz) {
            Some(t) => t,
            None => before.voxel_at(lx, ly, lz),
        })
}

/// One batch output chunk: `after` is `before` with exactly the batch
/// edits that fall into it applied, and its mesh rebuilt.
#[verifier::opaque]
pub open spec fn batch_output_of(
    after: Chunk,
    before: Chunk,
    updates: Seq<(i32, i32, i32, VoxelType)>,
    ox: int,
    oy: int,
    oz: int,
) -> bool {
    let cs = before.chunk_size as int;
    &&& after.position == before.position
    &&& after.chunk_size == before.chunk_size
    &&& after.out_of_bounds_voxels == before.out_of_bounds_voxels
    &&& after.needs_rebuild == before.needs_rebuild
    &&& after.mesh_ready
    &&& after.wf()
    &&& some_edit_targets(updates, ox, oy, oz, cs, before.position)
    &&& forall|lx: int, ly: int, lz: int|
        before.in_bounds(lx, ly, lz) ==> after.voxel_at(lx, ly, lz) == (
        match last_edit_for_cell(updates, ox, oy, oz, cs, before.position, lx, ly, lz) {
            Some(t) => t,
            None => before.voxel_at(lx, ly, lz),
        })
}

/// Apply a batch to one owned chunk: the finished chunk when any edit of
/// the batch fell into it, nothing when the batch does not touch it.
fn process_batch_chunk(
    c: Chunk,
    updates: &Vec<(i32, i32, i32, VoxelType)>,
    ox: i32,
    oy: i32,
    oz: i32,
) -> (r: Option<Chunk>)
    requires
        c.wf(),
        forall|i: int|
            0 <= i < updates@.len() ==> edit_fits(updates@[i], ox as int, oy as int, oz as int),
    ensures
        match r {
            Some(c2) => batch_output_of(c2, c, updates@, ox as int, oy as int, oz as int)
                && c2.wf() && c2.chunk_size == c.chunk_size,
            None => !some_edit_targets(
                updates@,
                ox as int,
                oy as int,
                oz as int,
                c.chunk_size as int,
                c.position,
            ),
        },
{
    let mut c2 = c;
    let touched = apply_updates_to_chunk(&mut c2, updates, ox, oy, oz);
    if touched {
        c2.prepare_mesh();
        proof {
            reveal(batch_output_of);
            assert(batch_output_of(c2, c, updates@, ox as int, oy as int, oz as int));
        }
        Some(c2)
    } else {
        None
    }
}

/// Process one work item exactly as a pool worker does, returning the
/// finished chunks (`r.0`) and whether the worker keeps running (`r.1`,
/// false exactly for `Exit`).
#[verifier::rlimit(100)]
pub fn perform_work(item: WorkItem, chunk_size: usize) -> (r: (Vec<Chunk>, bool))
    requires
        1 <= chunk_size <= MAX_CHUNK_SIZE,
        item_wf(item, chunk_size as int),
    ensures
        r.1 <==> !(item is Exit),
        forall|k: int|
            0 <= k < r.0@.len() ==> (#[trigger] r.0@[k]).wf() && r.0@[k].chunk_size == chunk_size,
        (match item {
            WorkItem::Exit => r.0@.len() == 0,
            WorkItem::Remesh { chunk } => r.0@.len() == 1 && r.0@[0] == (Chunk {
                mesh_ready: true,
                ..chunk
            }),
            WorkItem::ModifyVoxel { chunk, wx, wy, wz, voxel_type } => {
                let cs = chunk_size as int;
                let lx = local_axis(wx as int, cs);
                let ly = local_axis(wy as int, cs);
                let lz = local_axis(wz as int, cs);
                &&& r.0@.len() == 1
                &&& r.0@[0].position == chunk.position
                &&& r.0@[0].chunk_size == chunk.chunk_size
                &&& r.0@[0].out_of_bounds_voxels == chunk.out_of_bounds_voxels
                &&& r.0@[0].needs_rebuild == chunk.needs_rebuild
                &&& r.0@[0].mesh_ready
                &&& r.0@[0].voxel_at(lx, ly, lz) == voxel_type
                &&& forall|ax: int, ay: int, az: int|
                    chunk.in_bounds(ax, ay, az) && !(ax == lx && ay == ly && az == lz)
                        ==> r.0@[0].voxel_at(ax, ay, az) == chunk.voxel_at(ax, ay, az)
            },
            WorkItem::Generate { position, seed_edits } => {
                let cs = chunk_size as int;
                let seeds = (match seed_edits {
                    Some(v) => v@,
                    None => Seq::empty(),
                });
                &&& r.0@.len() == 1
                &&& r.0@[0].position == position
                &&& r.0@[0].chunk_size == chunk_size
                &&& r.0@[0].mesh_ready
                &&& !r.0@[0].gpu_ready
                &&& !r.0@[0].needs_rebuild
                &&& r.0@[0].out_of_bounds_voxels@ == edits_outside(seeds, cs, position)
                &&& forall|lx: int, ly: int, lz: int|
                    r.0@[0].in_bounds(lx, ly, lz) ==> r.0@[0].voxel_at(lx, ly, lz) == (
                    match last_edit_for_cell(seeds, 0, 0, 0, cs, position, lx, ly, lz) {
                        Some(t) => t,
                        None => terrain_voxel(position.y * cs + ly),
                    })
            },
            WorkItem::ModifyVoxelsBatch { updates, offset, chunks } => {
                let ox = offset.0 as int;
                let oy = offset.1 as int;
                let oz = offset.2 as int;
                let cs = chunk_size as int;
                &&& forall|j: int|
                    0 <= j < chunks@.len() && some_edit_targets(
                        updates@,
                        ox,
                        oy,
                        oz,
                        cs,
                        (#[trigger] chunks@[j]).position,
                    ) ==> (exists|k: int|
                        0 <= k < r.0@.len() && (#[trigger] r.0@[k]).position
                            == chunks@[j].position)
                &&& forall|k: int|
                    0 <= k < r.0@.len() ==> (exists|j: int|
                        0 <= j < chunks@.len() && batch_output_of(
                            #[trigger] r.0@[k],
                            chunks@[j],
                            updates@,
                            ox,
                            oy,
                            oz,
                        ))
                &&& forall|k1: int, k2: int|
                    0 <= k1 < k2 < r.0@.len() ==> r.0@[k1].position != r.0@[k2].position
            },
        }),
{
    match item {
        WorkItem::Exit => {
            let out: Vec<Chunk> = Vec::new();
            (out, false)
        },
        WorkItem::Remesh { mut chunk } => {
            chunk.prepare_mesh();
            let mut out: Vec<Chunk> = Vec::new();
            out.push(chunk);
            (out, true)
        },
        WorkItem::ModifyVoxel { mut chunk, wx, wy, wz, voxel_type } => {
            let cs_exec = chunk_size as i32;
            let lx = crate::coords::world_to_local_axis(wx, cs_exec);
            let ly = crate::coords::world_to_local_axis(wy, cs_exec);
            let lz = crate::coords::world_to_local_axis(wz, cs_exec);
            chunk.set_voxel(lx, ly, lz, voxel_type);
            chunk.prepare_mesh();
            let mut out: Vec<Chunk> = Vec::new();
            out.push(chunk);
            (out, true)
        },
        WorkItem::Generate { position, seed_edits } => {
            let ghost cs = chunk_size as int;
            let ghost seeds = (match &seed_edits {
                Some(v) => v@,
                None => Seq::empty(),
            });
            let mut c = Chunk::new(position, chunk_size);
            c.generate_data();
            let ghost c_terrain = c;
            if let Some(edits) = &seed_edits {
                seed_chunk_edits(&mut c, edits);
            }
            let ghost c_seeded = c;
            c.prepare_mesh();
            proof {
                assert(c.out_of_bounds_voxels@ =~= edits_outside(seeds, cs, position));
                assert forall|lx: int, ly: int, lz: int| c.in_bounds(lx, ly, lz) implies c.voxel_at(
                    lx,
                    ly,
                    lz,
                ) == (match last_edit_for_cell(seeds, 0, 0, 0, cs, position, lx, ly, lz) {
                    Some(t) => t,
                    None => terrain_voxel(position.y * cs + ly),
                }) by {
                    assert(c.voxel_at(lx, ly, lz) == c_seeded.voxel_at(lx, ly, lz));
                    assert(c_terrain.voxel_at(lx, ly, lz) == terrain_voxel(position.y * cs + ly));
                }
            }
            let mut out: Vec<Chunk> = Vec::new();
            out.push(c);
            (out, true)
        },
        WorkItem::ModifyVoxelsBatch { updates, offset, mut chunks } => {
            let ghost orig = chunks@;
            let ghost ox = offset.0 as int;
            let ghost oy = offset.1 as int;
            let ghost oz = offset.2 as int;
            let ghost cs = chunk_size as int;
            let mut out: Vec<Chunk> = Vec::new();
            let n = chunks.len();
            let mut j: usize = 0;
            while j < n
                invariant
                    n == orig.len(),
                    j <= n,
                    chunks@ == orig.skip(j as int),
                    forall|i: int| 0 <= i < updates@.len() ==> edit_fits(updates@[i], ox, oy, oz),
                    forall|jj: int| 0 <= jj < orig.len() ==> (#[trigger] orig[jj]).wf()
                        && orig[jj].chunk_size == chunk_size,
                    forall|j1: int, j2: int|
                        0 <= j1 < j2 < orig.len() ==> orig[j1].position != orig[j2].position,
                    ox == offset.0 as int && oy == offset.1 as int && oz == offset.2 as int,
                    cs == chunk_size as int,
                    forall|jj: int|
                        0 <= jj < j && some_edit_targets(
                            updates@,
                            ox,
                            oy,
                            oz,
                            cs,
                            (#[trigger] orig[jj]).position,
                        ) ==> (exists|k: int|
                            0 <= k < out@.len() && (#[trigger] out@[k]).position
                                == orig[jj].position),
                    forall|k: int|
                        0 <= k < out@.len() ==> (exists|jj: int|
                            0 <= jj < j && batch_output_of(
                                #[trigger] out@[k],
                                orig[jj],
                                updates@,
                                ox,
                                oy,
                                oz,
                            )),
                    forall|k1: int, k2: int|
                        0 <= k1 < k2 < out@.len() ==> out@[k1].position != out@[k2].position,
                    forall|k: int|
                        0 <= k < out@.len() ==> (#[trigger] out@[k]).wf() && out@[k].chunk_size
                            == chunk_size,
                decreases n - j,
            {
                let c = chunks.remove(0);
                proof {
                    assert(orig.skip(j as int)[0] == orig[j as int]);
                    assert(chunks@ =~= orig.skip(j as int + 1));
                }
                let ghost cj = orig[j as int];
                match process_batch_chunk(c, &updates, offset.0, offset.1, offset.2) {
                    Some(c2) => {
                        let ghost out_pre = out@;
                        proof {
                            assert(batch_output_of(c2, cj, updates@, ox, oy, oz));
                            assert(c2.position == cj.position) by {
                                reveal(batch_output_of);
                            }
                            assert forall|k: int|
                                0 <= k < out_pre.len() implies out_pre[k].position
                                != c2.position by {
                                reveal(batch_output_of);
                                let jj = choose|jj: int|
                                    0 <= jj < j && batch_output_of(
                                        #[trigger] out_pre[k],
                                        orig[jj],
                                        updates@,
                                        ox,
                                        oy,
                                        oz,
                                    );
                                assert(orig[jj].position != cj.position);
                            }
                        }
                        out.push(c2);
                        proof {
                            let n_out = out@.len() - 1;
                            assert(out@[n_out] == c2);
                            assert forall|jj: int|
                                0 <= jj < j + 1 && some_edit_targets(
                                    updates@,
                                    ox,
                                    oy,
                                    oz,
                                    cs,
                                    (#[trigger] orig[jj]).position,
                                ) implies (exists|k: int|
                                    0 <= k < out@.len() && (#[trigger] out@[k]).position
                                        == orig[jj].position) by {
                                if jj < j {
                                    let k = choose|k: int|
                                        0 <= k < out_pre.len() && (#[trigger] out_pre[k]).position
                                            == orig[jj].position;
                                    assert(out@[k].position == orig[jj].position);
                                } else {
                                    assert(out@[n_out].position == orig[jj].position);
                                }
                            }
                            assert forall|k: int| 0 <= k < out@.len() implies (exists|jj: int|
                                0 <= jj < j + 1 && batch_output_of(
                                    #[trigger] out@[k],
                                    orig[jj],
                                    updates@,
                                    ox,
                                    oy,
                                    oz,
                                )) by {
                                if k < n_out {
                                    let jj = choose|jj: int|
                                        0 <= jj < j && batch_output_of(
                                            #[trigger] out_pre[k],
                                            orig[jj],
                                            updates@,
                                            ox,
                                            oy,
                                            oz,
                                        );
                                    assert(out@[k] == out_pre[k]);
                                    assert(batch_output_of(out@[k], orig[jj], updates@, ox, oy, oz));
                                } else {
                                    assert(batch_output_of(out@[k], cj, updates@, ox, oy, oz));
                                }
                            }
                        }
                    },
                    None => {
                        proof {
                            assert(!some_edit_targets(updates@, ox, oy, oz, cs, cj.position));
                        }
                    },
                }
                j = j + 1;
            }
            (out, true)
        },
    }
}

/// `lemma_take_step` for edit lists, under a name callers outside this
/// module can use beside the edit-target lemmas.
pub proof fn lemma_take_step_edits(s: Seq<(i32, i32, i32, VoxelType)>, i: int)
    requires
        0 <= i < s.len(),
    ensures
        s.take(i + 1).drop_last() =~= s.take(i),
        s.take(i + 1).last() == s[i],
{
}

/// Taking one more edit targets exactly the chunks targeted before plus
/// the new edit's chunk.
pub proof fn lemma_some_edit_targets_step(
    s: Seq<(i32, i32, i32, VoxelType)>,
    i: int,
    ox: int,
    oy: int,
    oz: int,
    cs: int,
)
    requires
        0 <= i < s.len(),
    ensures
        forall|q: ChunkPos|
            #[trigger] some_edit_targets(s.take(i + 1), ox, oy, oz, cs, q) <==> (some_edit_targets(
                s.take(i),
                ox,
                oy,
                oz,
                cs,
                q,
            ) || edit_target(s[i], ox, oy, oz, cs) == q),
{
    reveal(some_edit_targets);
    assert forall|q: ChunkPos|
        #[trigger] some_edit_targets(s.take(i + 1), ox, oy, oz, cs, q) <==> (some_edit_targets(
            s.take(i),
            ox,
            oy,
            oz,
            cs,
            q,
        ) || edit_target(s[i], ox, oy, oz, cs) == q) by {
        if some_edit_targets(s.take(i + 1), ox, oy, oz, cs, q) {
            let k = choose|k: int|
                0 <= k < s.take(i + 1).len() && #[trigger] edit_target(
                    s.take(i + 1)[k],
                    ox,
                    oy,
                    oz,
                    cs,
                ) == q;
            if k < i {
                assert(s.take(i)[k] == s.take(i + 1)[k]);
            } else {
                assert(s.take(i + 1)[k] == s[i]);
            }
        }
        if some_edit_targets(s.take(i), ox, oy, oz, cs, q) {
            let k = choose|k: int|
                0 <= k < s.take(i).len() && #[trigger] edit_target(s.take(i)[k], ox, oy, oz, cs)
                    == q;
            assert(s.take(i + 1)[k] == s.take(i)[k]);
        }
        if edit_target(s[i], ox, oy, oz, cs) == q {
            assert(s.take(i + 1)[i] == s[i]);
        }
    }
}

/// A chunk targeted by a prefix of the edit list is targeted by the whole
/// list.
pub proof fn lemma_some_edit_targets_within(
    s: Seq<(i32, i32, i32, VoxelType)>,
    i: int,
    ox: int,
    oy: int,
    oz: int,
    cs: int,
)
    requires
        0 <= i <= s.len(),
    ensures
        forall|q: ChunkPos|
            #[trigger] some_edit_targets(s.take(i), ox, oy, oz, cs, q) ==> some_edit_targets(
                s,
                ox,
                oy,
                oz,
                cs,
                q,
            ),
{
    reveal(some_edit_targets);
    assert forall|q: ChunkPos|
        #[trigger] some_edit_targets(s.take(i), ox, oy, oz, cs, q) implies some_edit_targets(
        s,
        ox,
        oy,
        oz,
        cs,
        q,
    ) by {
        let k = choose|k: int|
            0 <= k < s.take(i).len() && #[trigger] edit_target(s.take(i)[k], ox, oy, oz, cs) == q;
        assert(s[k] == s.take(i)[k]);
    }
}

/// Number of `Exit` items in a queue.
pub open spec fn count_exits(items: Seq<WorkItem>) -> int
    decreases items.len(),
{
    if items.len() == 0 {
        0
    } else {
        (if items.last() is Exit {
            1int
        } else {
            0int
        }) + count_exits(items.drop_last())
    }
}

/// A queue never holds a negative number of `Exit` items.
pub proof fn lemma_count_exits_nonneg(items: Seq<WorkItem>)
    ensures
        count_exits(items) >= 0,
    decreases items.len(),
{
    if items.len() > 0 {
        lemma_count_exits_nonneg(items.drop_last());
    }
}

/// Peeling the queue from the front: the first item plus the rest.
proof fn lemma_count_exits_skip(items: Seq<WorkItem>)
    requires
        items.len() > 0,
    ensures
        count_exits(items) == (if items[0] is Exit {
            1int
        } else {
            0int
        }) + count_exits(items.skip(1)),
    decreases items.len(),
{
    if items.len() == 1 {
        assert(items.skip(1) =~= Seq::<WorkItem>::empty());
        assert(items.drop_last() =~= Seq::<WorkItem>::empty());
    } else {
        lemma_count_exits_skip(items.drop_last());
        assert(items.skip(1).drop_last() =~= items.drop_last().skip(1));
        assert(items.skip(1).last() == items.last());
        assert(items.drop_last()[0] == items[0]);
    }
}

/// One worker's whole life at the queue: consume items one by one until
/// an `Exit` arrives. Returns true when the worker terminated (it
/// consumed exactly one `Exit`); false when the queue ran dry first, the
/// model of a worker blocked forever on an empty queue.
pub fn worker_session(
    queue: &mut Vec<WorkItem>,
    results: &mut Vec<Chunk>,
    chunk_size: usize,
) -> (joined: bool)
    requires
        1 <= chunk_size <= MAX_CHUNK_SIZE,
        forall|i: int| 0 <= i < old(queue)@.len() ==> item_wf(#[trigger] old(queue)@[i], chunk_size as int),
    ensures
        joined <==> count_exits(old(queue)@) > 0,
        joined ==> count_exits(final(queue)@) == count_exits(old(queue)@) - 1,
        !joined ==> final(queue)@.len() == 0,
        forall|i: int| 0 <= i < final(queue)@.len() ==> item_wf(#[trigger] final(queue)@[i], chunk_size as int),
        final(results)@.len() >= old(results)@.len(),
        forall|i: int|
            0 <= i < old(results)@.len() ==> final(results)@[i] == old(results)@[i],
        forall|i: int|
            old(results)@.len() <= i < final(results)@.len() ==> (#[trigger] final(results)@[i]).wf()
                && final(results)@[i].chunk_size == chunk_size,
{
    loop
        invariant
            1 <= chunk_size <= MAX_CHUNK_SIZE,
            forall|i: int| 0 <= i < queue@.len() ==> item_wf(#[trigger] queue@[i], chunk_size as int),
            count_exits(queue@) == count_exits(old(queue)@),
            results@.len() >= old(results)@.len(),
            forall|i: int| 0 <= i < old(results)@.len() ==> results@[i] == old(results)@[i],
            forall|i: int|
                old(results)@.len() <= i < results@.len() ==> (#[trigger] results@[i]).wf()
                    && results@[i].chunk_size == chunk_size,
        decreases queue@.len(),
    {
        if queue.len() == 0 {
            proof {
                assert(queue@ =~= Seq::<WorkItem>::empty());
            }
            return false;
        }
        proof {
            lemma_count_exits_skip(queue@);
            lemma_count_exits_nonneg(queue@.skip(1));
        }
        let item = queue.remove(0);
        let (mut out, keep) = perform_work(item, chunk_size);
        while out.len() > 0
            invariant
                forall|i: int| 0 <= i < out@.len() ==> (#[trigger] out@[i]).wf()
                    && out@[i].chunk_size == chunk_size,
                results@.len() >= old(results)@.len(),
                forall|i: int| 0 <= i < old(results)@.len() ==> results@[i] == old(results)@[i],
                forall|i: int|
                    old(results)@.len() <= i < results@.len() ==> (#[trigger] results@[i]).wf()
                        && results@[i].chunk_size == chunk_size,
            decreases out@.len(),
        {
            let c = out.remove(0);
            results.push(c);
        }
        if !keep {
            return true;
        }
    }
}

/// Run `workers` worker sessions to completion over one queue, as a
/// shutdown of the whole pool does. Exactly one `Exit` is consumed per
/// terminated worker: all workers join exactly when the queue held at
/// least as many `Exit` items as there are workers.
pub fn run_pool(
    queue: &mut Vec<WorkItem>,
    results: &mut Vec<Chunk>,
    chunk_size: usize,
    workers: usize,
) -> (joined: usize)
    requires
        1 <= chunk_size <= MAX_CHUNK_SIZE,
        forall|i: int| 0 <= i < old(queue)@.len() ==> item_wf(#[trigger] old(queue)@[i], chunk_size as int),
    ensures
        joined == (if count_exits(old(queue)@) >= workers {
            workers as int
        } else {
            count_exits(old(queue)@)
        }),
        count_exits(final(queue)@) == count_exits(old(queue)@) - joined,
{
    proof {
        lemma_count_exits_nonneg(old(queue)@);
    }
    let ghost count0 = count_exits(old(queue)@);
    let mut joined: usize = 0;
    let mut w: usize = 0;
    while w < workers
        invariant
            1 <= chunk_size <= MAX_CHUNK_SIZE,
            w <= workers,
            count0 == count_exits(old(queue)@),
            count0 >= 0,
            joined <= w,
            joined == (if count0 >= w {
                w as int
            } else {
                count0
            }),
            count_exits(queue@) == count0 - joined,
            forall|i: int| 0 <= i < queue@.len() ==> item_wf(#[trigger] queue@[i], chunk_size as int),
        decreases workers - w,
    {
        let t = worker_session(queue, results, chunk_size);
        if t {
            joined = joined + 1;
        }
        proof {
            lemma_count_exits_nonneg(queue@);
        }
        w = w + 1;
    }
    joined
}

} // verus!
