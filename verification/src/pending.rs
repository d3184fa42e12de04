//! The cross-chunk pending-edit buffer and the pending-chunk set.
//!
//! `PendingVoxels` maps a target chunk coordinate to the ordered list of
//! absolute-coordinate edits waiting for that chunk to become resident; an
//! entry is drained by removal, so edits are applied exactly once.
//! `PendingChunks` is the set of coordinates with an outstanding generation
//! request; its membership is the sole de-duplication of scheduling.

use vstd::prelude::*;

use crate::coords::ChunkPos;
use crate::voxel::VoxelType;

verus! {

/// One buffered entry: a target chunk coordinate and the edits destined
/// for it, oldest first.
pub struct PendingPatch {
    /// The chunk coordinate the edits wait for.
    pub target: ChunkPos,
    /// Absolute-coordinate edits, in arrival order.
    pub edits: Vec<(i32, i32, i32, VoxelType)>,
}

/// Buffer of voxel edits whose target chunk is not resident yet.
pub struct PendingVoxels {
    /// The buffered entries; targets are pairwise distinct.
    pub entries: Vec<PendingPatch>,
}

impl PendingVoxels {
    /// Well-formedness: no two entries share a target.
    pub open spec fn wf(self) -> bool {
        forall|i: int, j: int|
            0 <= i < j < self.entries@.len() ==> self.entries@[i].target
                != self.entries@[j].target
    }

    /// True when edits are buffered for `p`.
    pub open spec fn has_patch(self, p: ChunkPos) -> bool {
        exists|i: int| 0 <= i < self.entries@.len() && self.entries@[i].target == p
    }

    /// Index of the entry for `p`.
    pub open spec fn index_of(self, p: ChunkPos) -> int {
        choose|i: int| 0 <= i < self.entries@.len() && self.entries@[i].target == p
    }

    /// The edits buffered for `p`, oldest first.
    pub open spec fn patch_at(self, p: ChunkPos) -> Seq<(i32, i32, i32, VoxelType)> {
        self.entries@[self.index_of(p)].edits@
    }

    /// The edits buffered for `p`, or the empty sequence when none are.
    pub open spec fn patch_or_empty(self, p: ChunkPos) -> Seq<(i32, i32, i32, VoxelType)> {
        if self.has_patch(p) {
            self.patch_at(p)
        } else {
            Seq::empty()
        }
    }

    /// Under well-formedness, any entry with target `p` is the entry
    /// `index_of` and `patch_at` speak of.
    pub proof fn lemma_index_unique(self, i: int, p: ChunkPos)
        requires
            self.wf(),
            0 <= i < self.entries@.len(),
            self.entries@[i].target == p,
        ensures
            self.has_patch(p),
            self.index_of(p) == i,
            self.patch_at(p) == self.entries@[i].edits@,
    {
        assert(self.has_patch(p));
        let j = self.index_of(p);
        if i < j {
            assert(self.entries@[i].target != self.entries@[j].target);
        } else if j < i {
            assert(self.entries@[j].target != self.entries@[i].target);
        }
    }

    /// An empty buffer.
    pub fn new() -> (r: PendingVoxels)
        ensures
            r.wf(),
            forall|p: ChunkPos| !r.has_patch(p),
    {
        PendingVoxels { entries: Vec::new() }
    }

    /// Index of the entry for `p`, if one exists.
    fn find_index(&self, p: ChunkPos) -> (r: Option<usize>)
        ensures
            match r {
                Some(i) => i < self.entries@.len() && self.entries@[i as int].target == p
                    && self.has_patch(p),
                None => !self.has_patch(p),
            },
    {
        let n = self.entries.len();
        let mut i: usize = 0;
        while i < n
            invariant
                n == self.entries@.len(),
                i <= n,
                forall|j: int| 0 <= j < i ==> self.entries@[j].target != p,
            decreases n - i,
        {
            let q = self.entries[i].target;
            if q.x == p.x && q.y == p.y && q.z == p.z {
                return Some(i);
            }
            i = i + 1;
        }
        None
    }

    /// Append one edit to the patch for `target`, creating the patch if
    /// none exists yet.
    pub fn push_edit(&mut self, target: ChunkPos, edit: (i32, i32, i32, VoxelType))
        requires
            old(self).wf(),
        ensures
            final(self).wf(),
            forall|q: ChunkPos| final(self).has_patch(q) <==> (old(self).has_patch(q) || q
                == target),
            final(self).patch_at(target) == old(self).patch_or_empty(target).push(edit),
            forall|q: ChunkPos|
                q != target && old(self).has_patch(q) ==> final(self).patch_at(q) == old(
                    self,
                ).patch_at(q),
    {
        let ghost pre = *self;
        match self.find_index(target) {
            Some(i) => {
                proof {
                    pre.lemma_index_unique(i as int, target);
                }
                let mut entry = self.entries.swap_remove(i);
                entry.edits.push(edit);
                self.entries.push(entry);
                proof {
                    let n = pre.entries@.len() as int;
                    // swap_remove(i) then push: the entry moved to the back,
                    // the old last entry (if distinct) took index i.
                    assert forall|a: int, b: int|
                        0 <= a < b < self.entries@.len() implies self.entries@[a].target
                        != self.entries@[b].target by {
                        let a0 = seq_slot_src(n, i as int, a);
                        let b0 = seq_slot_src(n, i as int, b);
                        assert(self.entries@[a].target == pre.entries@[a0].target);
                        assert(self.entries@[b].target == pre.entries@[b0].target);
                    }
                    self.lemma_index_unique(n - 1, target);
                    assert forall|q: ChunkPos|
                        final(self).has_patch(q) <==> (pre.has_patch(q) || q == target) by {
                        if pre.has_patch(q) {
                            let j = pre.index_of(q);
                            let j1 = seq_slot_dst(n, i as int, j);
                            assert(self.entries@[j1].target == pre.entries@[j].target);
                        }
                        if self.has_patch(q) {
                            let j = self.index_of(q);
                            let j0 = seq_slot_src(n, i as int, j);
                            assert(self.entries@[j].target == pre.entries@[j0].target);
                        }
                    }
                    assert forall|q: ChunkPos|
                        q != target && pre.has_patch(q) implies self.patch_at(q) == pre.patch_at(
                        q,
                    ) by {
                        let j = pre.index_of(q);
                        assert(pre.entries@[j].target == q);
                        assert(j != i as int);
                        let j1 = seq_slot_dst(n, i as int, j);
                        assert(self.entries@[j1] == pre.entries@[j]);
                        self.lemma_index_unique(j1, q);
                    }
                }
            },
            None => {
                let mut edits: Vec<(i32, i32, i32, VoxelType)> = Vec::new();
                edits.push(edit);
                self.entries.push(PendingPatch { target, edits });
                proof {
                    let n = pre.entries@.len() as int;
                    assert forall|a: int, b: int|
                        0 <= a < b < self.entries@.len() implies self.entries@[a].target
                        != self.entries@[b].target by {
                        if b < n {
                            assert(pre.entries@[a].target != pre.entries@[b].target);
                        } else {
                            assert(self.entries@[b].target == target);
                            assert(!pre.has_patch(target));
                        }
                    }
                    self.lemma_index_unique(n, target);
                    assert forall|q: ChunkPos|
                        final(self).has_patch(q) <==> (pre.has_patch(q) || q == target) by {
                        if pre.has_patch(q) {
                            let j = pre.index_of(q);
                            assert(self.entries@[j].target == q);
                        }
                        if self.has_patch(q) {
                            let j = self.index_of(q);
                            if j < n {
                                assert(pre.entries@[j].target == q);
                            }
                        }
                    }
                    assert(final(self).patch_at(target) =~= pre.patch_or_empty(target).push(edit));
                    assert forall|q: ChunkPos|
                        q != target && pre.has_patch(q) implies self.patch_at(q) == pre.patch_at(
                        q,
                    ) by {
                        let j = pre.index_of(q);
                        assert(pre.entries@[j].target == q);
                        self.lemma_index_unique(j, q);
                    }
                }
            },
        }
    }

    /// Remove and return the buffered edits for `p`, if any: draining by
    /// removal is what keeps every edit applied at most once.
    pub fn remove(&mut self, p: ChunkPos) -> (r: Option<Vec<(i32, i32, i32, VoxelType)>>)
        requires
            old(self).wf(),
        ensures
            final(self).wf(),
            match r {
                Some(edits) => old(self).has_patch(p) && edits@ == old(self).patch_at(p),
                None => !old(self).has_patch(p),
            },
            forall|q: ChunkPos| final(self).has_patch(q) <==> (old(self).has_patch(q) && q != p),
            forall|q: ChunkPos|
                q != p && old(self).has_patch(q) ==> final(self).patch_at(q) == old(
                    self,
                ).patch_at(q),
    {
        let ghost pre = *self;
        match self.find_index(p) {
            Some(i) => {
                proof {
                    pre.lemma_index_unique(i as int, p);
                }
                let entry = self.entries.remove(i);
                proof {
                    assert forall|a: int, b: int|
                        0 <= a < b < self.entries@.len() implies self.entries@[a].target
                        != self.entries@[b].target by {
                        let a0 = if a < i as int { a } else { a + 1 };
                        let b0 = if b < i as int { b } else { b + 1 };
                        assert(self.entries@[a] == pre.entries@[a0]);
                        assert(self.entries@[b] == pre.entries@[b0]);
                        assert(pre.entries@[a0].target != pre.entries@[b0].target);
                    }
                    assert forall|q: ChunkPos|
                        final(self).has_patch(q) <==> (pre.has_patch(q) && q != p) by {
                        if self.has_patch(q) {
                            let j = self.index_of(q);
                            let j0 = if j < i as int { j } else { j + 1 };
                            assert(self.entries@[j] == pre.entries@[j0]);
                            assert(pre.entries@[j0].target == q);
                            pre.lemma_index_unique(j0, q);
                        }
                        if pre.has_patch(q) && q != p {
                            let j0 = pre.index_of(q);
                            assert(pre.entries@[j0].target == q);
                            assert(j0 != i as int);
                            let j = if j0 < i as int { j0 } else { j0 - 1 };
                            assert(self.entries@[j] == pre.entries@[j0]);
                        }
                    }
                    assert forall|q: ChunkPos|
                        q != p && pre.has_patch(q) implies self.patch_at(q) == pre.patch_at(
                        q,
                    ) by {
                        let j0 = pre.index_of(q);
                        assert(pre.entries@[j0].target == q);
                        assert(j0 != i as int);
                        let j = if j0 < i as int { j0 } else { j0 - 1 };
                        assert(self.entries@[j] == pre.entries@[j0]);
                        self.lemma_index_unique(j, q);
                    }
                }
                Some(entry.edits)
            },
            None => None,
        }
    }

    /// The targets of all buffered patches, in entry order.
    pub fn targets(&self) -> (r: Vec<ChunkPos>)
        ensures
            r@.len() == self.entries@.len(),
            forall|i: int| 0 <= i < r@.len() ==> r@[i] == self.entries@[i].target,
    {
        let n = self.entries.len();
        let mut out: Vec<ChunkPos> = Vec::new();
        let mut i: usize = 0;
        while i < n
            invariant
                n == self.entries@.len(),
                i <= n,
                out@.len() == i,
                forall|j: int| 0 <= j < i ==> out@[j] == self.entries@[j].target,
            decreases n - i,
        {
            out.push(self.entries[i].target);
            i = i + 1;
        }
        out
    }
}

/// After `swap_remove(i)` followed by `push` of the removed element on a
/// sequence of length `n`, the element now at `a` came from this old index.
pub open spec fn seq_slot_src(n: int, i: int, a: int) -> int {
    if a == n - 1 {
        i
    } else if a == i {
        n - 1
    } else {
        a
    }
}

/// Inverse of `seq_slot_src`: where the element at old index `j` now sits.
pub open spec fn seq_slot_dst(n: int, i: int, j: int) -> int {
    if j == i {
        n - 1
    } else if j == n - 1 {
        i
    } else {
        j
    }
}

/// Set of chunk coordinates whose generation or remesh request is in
/// flight.
pub struct PendingChunks {
    /// The pending coordinates, pairwise distinct.
    pub entries: Vec<ChunkPos>,
}

impl PendingChunks {
    /// Well-formedness: no coordinate listed twice.
    pub open spec fn wf(self) -> bool {
        forall|i: int, j: int|
            0 <= i < j < self.entries@.len() ==> self.entries@[i] != self.entries@[j]
    }

    /// True when `p` has an outstanding request.
    pub open spec fn is_pending(self, p: ChunkPos) -> bool {
        self.entries@.contains(p)
    }

    /// An empty set.
    pub fn new() -> (r: PendingChunks)
        ensures
            r.wf(),
            forall|p: ChunkPos| !r.is_pending(p),
    {
        PendingChunks { entries: Vec::new() }
    }

    /// Index of `p` in the set, if present.
    fn find_index(&self, p: ChunkPos) -> (r: Option<usize>)
        ensures
            match r {
                Some(i) => i < self.entries@.len() && self.entries@[i as int] == p
                    && self.is_pending(p),
                None => !self.is_pending(p),
            },
    {
        let n = self.entries.len();
        let mut i: usize = 0;
        while i < n
            invariant
                n == self.entries@.len(),
                i <= n,
                forall|j: int| 0 <= j < i ==> self.entries@[j] != p,
            decreases n - i,
        {
            let q = self.entries[i];
            if q.x == p.x && q.y == p.y && q.z == p.z {
                return Some(i);
            }
            i = i + 1;
        }
        None
    }

    /// True when `p` has an outstanding request.
    pub fn contains(&self, p: ChunkPos) -> (r: bool)
        ensures
            r == self.is_pending(p),
    {
        self.find_index(p).is_some()
    }

    /// Mark `p` as pending. Inserting an already-pending coordinate leaves
    /// the set as it is.
    pub fn insert(&mut self, p: ChunkPos)
        requires
            old(self).wf(),
        ensures
            final(self).wf(),
            forall|q: ChunkPos| final(self).is_pending(q) <==> (old(self).is_pending(q) || q == p),
    {
        let ghost pre = *self;
        match self.find_index(p) {
            Some(_) => {
            },
            None => {
                self.entries.push(p);
                proof {
                    let n = pre.entries@.len() as int;
                    assert forall|a: int, b: int|
                        0 <= a < b < self.entries@.len() implies self.entries@[a]
                        != self.entries@[b] by {
                        if b < n {
                            assert(pre.entries@[a] != pre.entries@[b]);
                        } else {
                            assert(self.entries@[b] == p);
                            assert(!pre.is_pending(p));
                            assert(pre.entries@.contains(pre.entries@[a]));
                        }
                    }
                    assert forall|q: ChunkPos|
                        final(self).is_pending(q) <==> (pre.is_pending(q) || q == p) by {
                        if pre.is_pending(q) {
                            let j = choose|j: int|
                                0 <= j < pre.entries@.len() && pre.entries@[j] == q;
                            assert(self.entries@[j] == q);
                        }
                        assert(self.entries@[n] == p);
                        if self.is_pending(q) {
                            let j = choose|j: int|
                                0 <= j < self.entries@.len() && self.entries@[j] == q;
                            if j < n {
                                assert(pre.entries@[j] == q);
                            }
                        }
                    }
                }
            },
        }
    }

    /// Clear `p` from the set; clearing an absent coordinate does
    /// nothing.
    pub fn remove(&mut self, p: ChunkPos)
        requires
            old(self).wf(),
        ensures
            final(self).wf(),
            forall|q: ChunkPos| final(self).is_pending(q) <==> (old(self).is_pending(q) && q != p),
    {
        let ghost pre = *self;
        match self.find_index(p) {
            Some(i) => {
                self.entries.remove(i);
                proof {
                    assert forall|a: int, b: int|
                        0 <= a < b < self.entries@.len() implies self.entries@[a]
                        != self.entries@[b] by {
                        let a0 = if a < i as int { a } else { a + 1 };
                        let b0 = if b < i as int { b } else { b + 1 };
                        assert(self.entries@[a] == pre.entries@[a0]);
                        assert(self.entries@[b] == pre.entries@[b0]);
                        assert(pre.entries@[a0] != pre.entries@[b0]);
                    }
                    assert forall|q: ChunkPos|
                        final(self).is_pending(q) <==> (pre.is_pending(q) && q != p) by {
                        if self.is_pending(q) {
                            let j = choose|j: int|
                                0 <= j < self.entries@.len() && self.entries@[j] == q;
                            let j0 = if j < i as int { j } else { j + 1 };
                            assert(self.entries@[j] == pre.entries@[j0]);
                            assert(pre.entries@[j0] == q);
                            if q == p {
                                assert(pre.entries@[j0] == pre.entries@[i as int]);
                                assert(j0 != i as int);
                                assert(false);
                            }
                        }
                        if pre.is_pending(q) && q != p {
                            let j0 = choose|j0: int|
                                0 <= j0 < pre.entries@.len() && pre.entries@[j0] == q;
                            assert(j0 != i as int);
                            let j = if j0 < i as int { j0 } else { j0 - 1 };
                            assert(self.entries@[j] == pre.entries@[j0]);
                            assert(self.entries@.contains(q));
                        }
                    }
                }
            },
            None => {
            },
        }
    }
}

} // verus!
