//! The chunk registry: the authoritative map from chunk coordinate to
//! resident chunk.
//!
//! A coordinate is resident exactly when some entry holds a chunk with that
//! position; entries are keyed by the chunk's own `position` field, and
//! well-formedness keeps positions pairwise distinct. A chunk that has been
//! handed to a worker is simply absent here until its result is drained.

use vstd::prelude::*;

use crate::chunk::Chunk;
use crate::coords::ChunkPos;

verus! {

/// Registry of resident chunks, keyed by chunk position.
pub struct ChunkRegistry {
    /// The resident chunks; positions are pairwise distinct.
    pub entries: Vec<Chunk>,
}

impl ChunkRegistry {
    /// Well-formedness: no two entries share a position.
    pub open spec fn wf(self) -> bool {
        forall|i: int, j: int|
            0 <= i < j < self.entries@.len() ==> self.entries@[i].position
                != self.entries@[j].position
    }

    /// Number of resident chunks.
    pub open spec fn count(self) -> nat {
        self.entries@.len()
    }

    /// True when a chunk with position `p` is resident.
    pub open spec fn resident(self, p: ChunkPos) -> bool {
        exists|i: int| 0 <= i < self.entries@.len() && self.entries@[i].position == p
    }

    /// Index of the resident chunk with position `p`.
    pub open spec fn index_of(self, p: ChunkPos) -> int {
        choose|i: int| 0 <= i < self.entries@.len() && self.entries@[i].position == p
    }

    /// The resident chunk with position `p`.
    pub open spec fn chunk_at(self, p: ChunkPos) -> Chunk {
        self.entries@[self.index_of(p)]
    }

    /// Under well-formedness, any entry holding position `p` is the entry
    /// `index_of` and `chunk_at` speak of.
    pub proof fn lemma_index_unique(self, i: int, p: ChunkPos)
        requires
            self.wf(),
            0 <= i < self.entries@.len(),
            self.entries@[i].position == p,
        ensures
            self.resident(p),
            self.index_of(p) == i,
            self.chunk_at(p) == self.entries@[i],
    {
        assert(self.resident(p));
        let j = self.index_of(p);
        if i < j {
            assert(self.entries@[i].position != self.entries@[j].position);
        } else if j < i {
            assert(self.entries@[j].position != self.entries@[i].position);
        }
    }

    /// An empty registry.
    pub fn new() -> (r: ChunkRegistry)
        ensures
            r.wf(),
            r.count() == 0,
            forall|p: ChunkPos| !r.resident(p),
    {
        ChunkRegistry { entries: Vec::new() }
    }

    /// Number of resident chunks.
    pub fn len(&self) -> (r: usize)
        ensures
            r == self.count(),
    {
        self.entries.len()
    }

    /// Index of the entry with position `p`, if one is resident.
    fn find_index(&self, p: ChunkPos) -> (r: Option<usize>)
        ensures
            match r {
                Some(i) => i < self.entries@.len() && self.entries@[i as int].position == p
                    && self.resident(p),
                None => !self.resident(p),
            },
    {
        let n = self.entries.len();
        let mut i: usize = 0;
        while i < n
            invariant
                n == self.entries@.len(),
                i <= n,
                forall|j: int| 0 <= j < i ==> self.entries@[j].position != p,
            decreases n - i,
        {
            let q = self.entries[i].position;
            if q.x == p.x && q.y == p.y && q.z == p.z {
                return Some(i);
            }
            i = i + 1;
        }
        None
    }

    /// True when a chunk with position `p` is resident.
    pub fn contains(&self, p: ChunkPos) -> (r: bool)
        ensures
            r == self.resident(p),
    {
        self.find_index(p).is_some()
    }

    /// Borrow the resident chunk with position `p`, if any.
    pub fn get(&self, p: ChunkPos) -> (r: Option<&Chunk>)
        requires
            self.wf(),
        ensures
            match r {
                Some(c) => self.resident(p) && *c == self.chunk_at(p),
                None => !self.resident(p),
            },
    {
        match self.find_index(p) {
            Some(i) => {
                proof {
                    self.lemma_index_unique(i as int, p);
                }
                Some(&self.entries[i])
            },
            None => None,
        }
    }

    /// Insert a chunk under its own position, replacing any chunk already
    /// resident there.
    pub fn insert(&mut self, c: Chunk)
        requires
            old(self).wf(),
        ensures
            final(self).wf(),
            forall|q: ChunkPos| final(self).resident(q) <==> (old(self).resident(q) || q
                == c.position),
            final(self).chunk_at(c.position) == c,
            forall|q: ChunkPos|
                q != c.position && old(self).resident(q) ==> final(self).chunk_at(q) == old(
                    self,
                ).chunk_at(q),
            final(self).count() == old(self).count() + (if old(self).resident(c.position) {
                0int
            } else {
                1int
            }),
    {
        let ghost pre = *self;
        match self.find_index(c.position) {
            Some(i) => {
                proof {
                    pre.lemma_index_unique(i as int, c.position);
                }
                self.entries.set(i, c);
                proof {
                    assert forall|q: ChunkPos|
                        final(self).resident(q) <==> (pre.resident(q) || q == c.position) by {
                        if pre.resident(q) {
                            let j = pre.index_of(q);
                            if j == i {
                                assert(self.entries@[i as int].position == c.position);
                            } else {
                                assert(self.entries@[j].position == q);
                            }
                        }
                        if self.resident(q) {
                            let j = self.index_of(q);
                            if j != i {
                                assert(pre.entries@[j].position == q);
                            }
                        }
                    }
                    self.lemma_index_unique(i as int, c.position);
                    assert forall|q: ChunkPos|
                        q != c.position && pre.resident(q) implies self.chunk_at(q)
                        == pre.chunk_at(q) by {
                        let j = pre.index_of(q);
                        assert(pre.entries@[j].position == q);
                        assert(j != i);
                        self.lemma_index_unique(j, q);
                    }
                }
            },
            None => {
                self.entries.push(c);
                proof {
                    let n = pre.entries@.len() as int;
                    assert forall|i: int, j: int|
                        0 <= i < j < self.entries@.len() implies self.entries@[i].position
                        != self.entries@[j].position by {
                        if j < n {
                            assert(pre.entries@[i].position != pre.entries@[j].position);
                        } else {
                            assert(self.entries@[j] == c);
                            assert(!pre.resident(c.position));
                        }
                    }
                    self.lemma_index_unique(n, c.position);
                    assert forall|q: ChunkPos|
                        final(self).resident(q) <==> (pre.resident(q) || q == c.position) by {
                        if pre.resident(q) {
                            let j = pre.index_of(q);
                            assert(self.entries@[j].position == q);
                        }
                        if self.resident(q) {
                            let j = self.index_of(q);
                            if j < n {
                                assert(pre.entries@[j].position == q);
                            }
                        }
                    }
                    assert forall|q: ChunkPos|
                        q != c.position && pre.resident(q) implies self.chunk_at(q)
                        == pre.chunk_at(q) by {
                        let j = pre.index_of(q);
                        assert(pre.entries@[j].position == q);
                        self.lemma_index_unique(j, q);
                    }
                }
            },
        }
    }

    /// Remove and return the resident chunk with position `p`, if any.
    pub fn remove(&mut self, p: ChunkPos) -> (r: Option<Chunk>)
        requires
            old(self).wf(),
        ensures
            final(self).wf(),
            r == (if old(self).resident(p) {
                Some(old(self).chunk_at(p))
            } else {
                None::<Chunk>
            }),
            forall|q: ChunkPos| final(self).resident(q) <==> (old(self).resident(q) && q != p),
            forall|q: ChunkPos|
                q != p && old(self).resident(q) ==> final(self).chunk_at(q) == old(
                    self,
                ).chunk_at(q),
            final(self).count() == old(self).count() - (if old(self).resident(p) {
                1int
            } else {
                0int
            }),
    {
        let ghost pre = *self;
        match self.find_index(p) {
            Some(i) => {
                proof {
                    pre.lemma_index_unique(i as int, p);
                }
                let c = self.entries.remove(i);
                proof {
                    let n = pre.entries@.len() as int;
                    assert forall|a: int, b: int|
                        0 <= a < b < self.entries@.len() implies self.entries@[a].position
                        != self.entries@[b].position by {
                        let a0 = if a < i as int { a } else { a + 1 };
                        let b0 = if b < i as int { b } else { b + 1 };
                        assert(self.entries@[a] == pre.entries@[a0]);
                        assert(self.entries@[b] == pre.entries@[b0]);
                        assert(pre.entries@[a0].position != pre.entries@[b0].position);
                    }
                    assert forall|q: ChunkPos|
                        final(self).resident(q) <==> (pre.resident(q) && q != p) by {
                        if self.resident(q) {
                            let j = self.index_of(q);
                            let j0 = if j < i as int { j } else { j + 1 };
                            assert(self.entries@[j] == pre.entries@[j0]);
                            assert(pre.entries@[j0].position == q);
                            pre.lemma_index_unique(j0, q);
                            assert(q != p);
                        }
                        if pre.resident(q) && q != p {
                            let j0 = pre.index_of(q);
                            assert(pre.entries@[j0].position == q);
                            assert(j0 != i as int);
                            let j = if j0 < i as int { j0 } else { j0 - 1 };
                            assert(self.entries@[j] == pre.entries@[j0]);
                        }
                    }
                    assert forall|q: ChunkPos|
                        q != p && pre.resident(q) implies self.chunk_at(q) == pre.chunk_at(
                        q,
                    ) by {
                        let j0 = pre.index_of(q);
                        assert(pre.entries@[j0].position == q);
                        assert(j0 != i as int);
                        let j = if j0 < i as int { j0 } else { j0 - 1 };
                        assert(self.entries@[j] == pre.entries@[j0]);
                        self.lemma_index_unique(j, q);
                    }
                }
                Some(c)
            },
            None => None,
        }
    }

    /// The positions of all resident chunks, in entry order.
    pub fn positions(&self) -> (r: Vec<ChunkPos>)
        ensures
            r@.len() == self.count(),
            forall|i: int| 0 <= i < r@.len() ==> r@[i] == self.entries@[i].position,
    {
        let n = self.entries.len();
        let mut out: Vec<ChunkPos> = Vec::new();
        let mut i: usize = 0;
        while i < n
            invariant
                n == self.entries@.len(),
                i <= n,
                out@.len() == i,
                forall|j: int| 0 <= j < i ==> out@[j] == self.entries@[j].position,
            decreases n - i,
        {
            out.push(self.entries[i].position);
            i = i + 1;
        }
        out
    }
}

} // verus!
