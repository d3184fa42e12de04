//! Chunk coordinates and the world-to-chunk coordinate mapping.
//!
//! A world coordinate axis value `w` belongs to chunk axis `w.div_euclid(cs)`
//! at local offset `w.rem_euclid(cs)`, where `cs` is the chunk edge length.
//! Floor division (never truncation) keeps negative world coordinates on the
//! correct chunk.

use vstd::prelude::*;

verus! {

/// Coordinate of one chunk in the infinite chunk grid.
#[derive(Clone, Copy, Debug, PartialEq, Eq, Structural)]
pub struct ChunkPos {
    pub x: i32,
    pub y: i32,
    pub z: i32,
}

/// Chunk axis index of world axis value `w` for chunk edge `cs`:
/// floor division, as `i32::div_euclid` computes it for positive `cs`.
pub open spec fn chunk_axis(w: int, cs: int) -> int {
    w / cs
}

/// Local offset of world axis value `w` inside its chunk, in `[0, cs)`.
pub open spec fn local_axis(w: int, cs: int) -> int {
    w % cs
}

/// Absolute value of an integer.
pub open spec fn abs_int(a: int) -> int {
    if a >= 0 {
        a
    } else {
        -a
    }
}

/// Chebyshev distance of two chunk coordinates: the largest per-axis
/// absolute difference.
pub open spec fn chebyshev(a: ChunkPos, b: ChunkPos) -> int {
    let dx = abs_int(a.x - b.x);
    let dy = abs_int(a.y - b.y);
    let dz = abs_int(a.z - b.z);
    if dx >= dy && dx >= dz {
        dx
    } else if dy >= dz {
        dy
    } else {
        dz
    }
}

/// Squared Euclidean distance of an offset triple.
pub open spec fn dist_sq(dx: int, dy: int, dz: int) -> int {
    dx * dx + dy * dy + dz * dz
}

proof fn lemma_div_euclid_in_range(w: int, cs: int)
    requires
        i32::MIN <= w <= i32::MAX,
        1 <= cs <= i32::MAX,
    ensures
        i32::MIN <= w / cs <= i32::MAX,
{
    assert(i32::MIN <= w / cs <= i32::MAX) by (nonlinear_arith)
        requires
            i32::MIN <= w <= i32::MAX,
            1 <= cs,
    ;
}

/// Chunk axis index of world axis value `w`, by Euclidean division.
pub fn world_to_chunk_axis(w: i32, cs: i32) -> (c: i32)
    requires
        cs >= 1,
    ensures
        c == chunk_axis(w as int, cs as int),
{
    proof {
        lemma_div_euclid_in_range(w as int, cs as int);
    }
    match w.checked_div_euclid(cs) {
        Some(c) => c,
        None => {
            proof {
                assert(false);
            }
            0
        },
    }
}

/// Local offset of world axis value `w` inside its chunk, by Euclidean
/// remainder; always in `[0, cs)`.
pub fn world_to_local_axis(w: i32, cs: i32) -> (l: usize)
    requires
        cs >= 1,
    ensures
        l == local_axis(w as int, cs as int),
        l < cs,
{
    proof {
        assert(0 <= (w as int) % (cs as int) && (w as int) % (cs as int) < cs as int) by (nonlinear_arith)
            requires
                cs >= 1,
        ;
    }
    match w.checked_rem_euclid(cs) {
        Some(l) => l as usize,
        None => {
            proof {
                assert(false);
            }
            0
        },
    }
}

/// Chunk coordinate that contains the world position `(wx, wy, wz)`.
pub fn world_to_chunk(wx: i32, wy: i32, wz: i32, cs: i32) -> (c: ChunkPos)
    requires
        cs >= 1,
    ensures
        c.x == chunk_axis(wx as int, cs as int),
        c.y == chunk_axis(wy as int, cs as int),
        c.z == chunk_axis(wz as int, cs as int),
{
    ChunkPos {
        x: world_to_chunk_axis(wx, cs),
        y: world_to_chunk_axis(wy, cs),
        z: world_to_chunk_axis(wz, cs),
    }
}

/// Absolute value of an `i64` that is not `i64::MIN`.
fn abs_i64(a: i64) -> (r: i64)
    requires
        a > i64::MIN,
    ensures
        r == abs_int(a as int),
{
    if a >= 0 {
        a
    } else {
        -a
    }
}

/// Chebyshev distance of two chunk coordinates, computed in 64-bit
/// arithmetic so that any pair of 32-bit coordinates is accepted.
pub fn chebyshev_dist(a: ChunkPos, b: ChunkPos) -> (d: i64)
    ensures
        d == chebyshev(a, b),
{
    let dx = abs_i64(a.x as i64 - b.x as i64);
    let dy = abs_i64(a.y as i64 - b.y as i64);
    let dz = abs_i64(a.z as i64 - b.z as i64);
    if dx >= dy && dx >= dz {
        dx
    } else if dy >= dz {
        dy
    } else {
        dz
    }
}

} // verus!
