//! Procedural tree generators: pure data generators that emit voxel edit
//! lists for the asynchronous bulk-placement path.
//!
//! Each generator raises a randomized trunk, may hang randomized branches
//! with leaf clusters off it, and closes with a leaf crown. Randomness
//! comes from the process-wide generator of the `rand` crate through two
//! trusted wrappers; everything after the draws is verified. What is
//! promised of every outcome: the edit list names only that tree's wood
//! and leaf types, and a full rectangular trunk of some height within the
//! species' range stands on the base position.

use vstd::prelude::*;

use crate::voxel::VoxelType;

verus! {

/// Largest magnitude of a tree base coordinate: keeps every offset the
/// generators add (trunk, branches, leaves) inside `i32`.
pub const TREE_COORD_LIMIT: i32 = 1_000_000_000;

/// True when the edit list places voxel type `t` at `(x, y, z)`.
pub open spec fn has_voxel(
    voxels: Seq<(i32, i32, i32, VoxelType)>,
    x: int,
    y: int,
    z: int,
    t: VoxelType,
) -> bool {
    exists|i: int|
        0 <= i < voxels.len() && (#[trigger] voxels[i]).0 == x && voxels[i].1 == y && voxels[i].2
            == z && voxels[i].3 == t
}

/// True when the edit list raises a complete trunk of wood: a
/// `thick` x `thick` column of height `h` standing on `base`.
pub open spec fn trunk_complete(
    voxels: Seq<(i32, i32, i32, VoxelType)>,
    base: (i32, i32, i32),
    wood: VoxelType,
    thick: int,
    h: int,
) -> bool {
    forall|dx: int, dy: int, dz: int|
        0 <= dx < thick && 0 <= dy < h && 0 <= dz < thick ==> #[trigger] has_voxel(
            voxels,
            base.0 + dx,
            base.1 + dy,
            base.2 + dz,
            wood,
        )
}

/// True when every edit of the list places `wood` or `leaves`.
pub open spec fn only_tree_material(
    voxels: Seq<(i32, i32, i32, VoxelType)>,
    wood: VoxelType,
    leaves: VoxelType,
) -> bool {
    forall|i: int| 0 <= i < voxels.len() ==> ((#[trigger] voxels[i]).3 == wood || voxels[i].3 == leaves)
}

/// A voxel placed stays placed: extending the list keeps `has_voxel`.
proof fn lemma_has_voxel_mono(
    s1: Seq<(i32, i32, i32, VoxelType)>,
    s2: Seq<(i32, i32, i32, VoxelType)>,
    x: int,
    y: int,
    z: int,
    t: VoxelType,
)
    requires
        s2.len() >= s1.len(),
        forall|i: int| 0 <= i < s1.len() ==> s2[i] == s1[i],
        has_voxel(s1, x, y, z, t),
    ensures
        has_voxel(s2, x, y, z, t),
{
    let i = choose|i: int|
        0 <= i < s1.len() && (#[trigger] s1[i]).0 == x && s1[i].1 == y && s1[i].2 == z && s1[i].3
            == t;
    assert(s2[i] == s1[i]);
}

/// Relies on `rand::random_range` over `lo..hi`: the result is a value of
/// the given non-empty range (the call panics on an empty one, which the
/// precondition rules out).
#[verifier::external_body]
fn rand_range_i32(lo: i32, hi: i32) -> (r: i32)
    requires
        lo < hi,
    ensures
        lo <= r < hi,
{
    rand::random_range(lo..hi)
}

/// Relies on `rand::random_ratio`: true with probability
/// `numerator / denominator` (the call panics when the denominator is
/// zero or the numerator exceeds it, which the precondition rules out).
/// Nothing is promised of the outcome.
#[verifier::external_body]
fn rand_ratio(numerator: u32, denominator: u32) -> bool
    requires
        1 <= denominator,
        numerator <= denominator,
{
    rand::random_ratio(numerator, denominator)
}

/// True when some edit of the list already occupies `(x, y, z)`.
fn position_used(voxels: &Vec<(i32, i32, i32, VoxelType)>, x: i32, y: i32, z: i32) -> (r: bool)
    ensures
        r <==> (exists|i: int|
            0 <= i < voxels@.len() && (#[trigger] voxels@[i]).0 == x && voxels@[i].1 == y
                && voxels@[i].2 == z),
{
    let n = voxels.len();
    let mut i: usize = 0;
    while i < n
        invariant
            n == voxels@.len(),
            i <= n,
            forall|j: int|
                0 <= j < i ==> !((#[trigger] voxels@[j]).0 == x && voxels@[j].1 == y && voxels@[j].2
                    == z),
        decreases n - i,
    {
        let e = voxels[i];
        if e.0 == x && e.1 == y && e.2 == z {
            return true;
        }
        i = i + 1;
    }
    false
}

/// Nearest-integer interpolation step: `num * i / steps`, rounded to the
/// nearest integer (halves resolve upward).
fn round_interp(num: i32, i: i32, steps: i32) -> (r: i32)
    requires
        1 <= steps <= 64,
        0 <= i <= steps,
        -128 <= num <= 128,
    ensures
        -129 <= r <= 129,
{
    proof {
        assert(-0x4000 <= num as int * i as int <= 0x4000) by (nonlinear_arith)
            requires
                -128 <= num as int <= 128,
                0 <= i as int <= 64,
        ;
    }
    let scaled: i32 = num * i * 2 + steps;
    let denom: i32 = steps * 2;
    let q = match scaled.checked_div_euclid(denom) {
        Some(q) => q,
        None => 0,
    };
    if q < -129 {
        -129
    } else if q > 129 {
        129
    } else {
        q
    }
}

/// Append the voxels of one branch: a rounded straight line of wood from
/// `start` to `end`.
fn push_branch(
    voxels: &mut Vec<(i32, i32, i32, VoxelType)>,
    start: (i32, i32, i32),
    end: (i32, i32, i32),
    steps: i32,
    wood: VoxelType,
)
    requires
        1 <= steps <= 64,
        -0x4000_0000 <= start.0 <= 0x4000_0000,
        -0x4000_0000 <= start.1 <= 0x4000_0000,
        -0x4000_0000 <= start.2 <= 0x4000_0000,
        -128 <= end.0 - start.0 <= 128,
        -128 <= end.1 - start.1 <= 128,
        -128 <= end.2 - start.2 <= 128,
    ensures
        final(voxels)@.len() >= old(voxels)@.len(),
        forall|i: int| 0 <= i < old(voxels)@.len() ==> final(voxels)@[i] == old(voxels)@[i],
        forall|i: int|
            old(voxels)@.len() <= i < final(voxels)@.len() ==> (#[trigger] final(voxels)@[i]).3
                == wood,
{
    let dx = end.0 - start.0;
    let dy = end.1 - start.1;
    let dz = end.2 - start.2;
    let mut i: i32 = 0;
    while i <= steps
        invariant
            1 <= steps <= 64,
            0 <= i <= steps + 1,
            -0x4000_0000 <= start.0 <= 0x4000_0000,
            -0x4000_0000 <= start.1 <= 0x4000_0000,
            -0x4000_0000 <= start.2 <= 0x4000_0000,
            -128 <= dx <= 128,
            -128 <= dy <= 128,
            -128 <= dz <= 128,
            voxels@.len() >= old(voxels)@.len(),
            forall|k: int| 0 <= k < old(voxels)@.len() ==> voxels@[k] == old(voxels)@[k],
            forall|k: int|
                old(voxels)@.len() <= k < voxels@.len() ==> (#[trigger] voxels@[k]).3 == wood,
        decreases steps + 1 - i,
    {
        let bx = start.0 + round_interp(dx, i, steps);
        let by = start.1 + round_interp(dy, i, steps);
        let bz = start.2 + round_interp(dz, i, steps);
        voxels.push((bx, by, bz, wood));
        i = i + 1;
    }
}

/// Append a roughly spherical leaf cluster of the given radius around
/// `center`, skipping positions the list already occupies.
fn push_leaf_cluster(
    voxels: &mut Vec<(i32, i32, i32, VoxelType)>,
    center: (i32, i32, i32),
    leaf_type: VoxelType,
    radius: i32,
)
    requires
        1 <= radius <= 8,
        -0x4000_0000 <= center.0 <= 0x4000_0000,
        -0x4000_0000 <= center.1 <= 0x4000_0000,
        -0x4000_0000 <= center.2 <= 0x4000_0000,
    ensures
        final(voxels)@.len() >= old(voxels)@.len(),
        forall|i: int| 0 <= i < old(voxels)@.len() ==> final(voxels)@[i] == old(voxels)@[i],
        forall|i: int|
            old(voxels)@.len() <= i < final(voxels)@.len() ==> (#[trigger] final(voxels)@[i]).3
                == leaf_type,
{
    let mut dx: i32 = -radius;
    while dx <= radius
        invariant
            1 <= radius <= 8,
            -0x4000_0000 <= center.0 <= 0x4000_0000,
            -0x4000_0000 <= center.1 <= 0x4000_0000,
            -0x4000_0000 <= center.2 <= 0x4000_0000,
            -radius <= dx <= radius + 1,
            voxels@.len() >= old(voxels)@.len(),
            forall|k: int| 0 <= k < old(voxels)@.len() ==> voxels@[k] == old(voxels)@[k],
            forall|k: int|
                old(voxels)@.len() <= k < voxels@.len() ==> (#[trigger] voxels@[k]).3 == leaf_type,
        decreases radius + 1 - dx,
    {
        let mut dy: i32 = -1;
        while dy <= 1
            invariant
                1 <= radius <= 8,
                -0x4000_0000 <= center.0 <= 0x4000_0000,
                -0x4000_0000 <= center.1 <= 0x4000_0000,
                -0x4000_0000 <= center.2 <= 0x4000_0000,
                -radius <= dx <= radius,
                -1 <= dy <= 2,
                voxels@.len() >= old(voxels)@.len(),
                forall|k: int| 0 <= k < old(voxels)@.len() ==> voxels@[k] == old(voxels)@[k],
                forall|k: int|
                    old(voxels)@.len() <= k < voxels@.len() ==> (#[trigger] voxels@[k]).3
                        == leaf_type,
            decreases 2 - dy,
        {
            let mut dz: i32 = -radius;
            while dz <= radius
                invariant
                    1 <= radius <= 8,
                    -0x4000_0000 <= center.0 <= 0x4000_0000,
                    -0x4000_0000 <= center.1 <= 0x4000_0000,
                    -0x4000_0000 <= center.2 <= 0x4000_0000,
                    -radius <= dx <= radius,
                    -1 <= dy <= 1,
                    -radius <= dz <= radius + 1,
                    voxels@.len() >= old(voxels)@.len(),
                    forall|k: int| 0 <= k < old(voxels)@.len() ==> voxels@[k] == old(voxels)@[k],
                    forall|k: int|
                        old(voxels)@.len() <= k < voxels@.len() ==> (#[trigger] voxels@[k]).3
                            == leaf_type,
                decreases radius + 1 - dz,
            {
                proof {
                    assert(0 <= dx as int * dx as int <= 64 && 0 <= dz as int * dz as int <= 64
                        && 0 <= dy as int * dy as int <= 1 && 0 <= radius as int * radius as int
                        <= 64) by (nonlinear_arith)
                        requires
                            -8 <= dx as int <= 8,
                            -8 <= dz as int <= 8,
                            -1 <= dy as int <= 1,
                            1 <= radius as int <= 8,
                    ;
                }
                let distance_sq = dx * dx + dy * dy + dz * dz;
                if distance_sq <= radius * radius {
                    let x = center.0 + dx;
                    let y = center.1 + dy;
                    let z = center.2 + dz;
                    if !position_used(voxels, x, y, z) {
                        voxels.push((x, y, z, leaf_type));
                    }
                }
                dz = dz + 1;
            }
            dy = dy + 1;
        }
        dx = dx + 1;
    }
}

/// Append the crown: a flattened ellipsoid of leaves sitting on
/// `center`, skipping positions the list already occupies. A cell
/// belongs to the crown when `16 dx^2 + 25 dy^2 + 16 dz^2 <= 16 r^2`,
/// the integer form of an ellipsoid squashed to four fifths of the
/// radius along the vertical axis.
fn push_crown(
    voxels: &mut Vec<(i32, i32, i32, VoxelType)>,
    center: (i32, i32, i32),
    leaf_type: VoxelType,
    radius: i32,
)
    requires
        1 <= radius <= 8,
        -0x4000_0000 <= center.0 <= 0x4000_0000,
        -0x4000_0000 <= center.1 <= 0x4000_0000,
        -0x4000_0000 <= center.2 <= 0x4000_0000,
    ensures
        final(voxels)@.len() >= old(voxels)@.len(),
        forall|i: int| 0 <= i < old(voxels)@.len() ==> final(voxels)@[i] == old(voxels)@[i],
        forall|i: int|
            old(voxels)@.len() <= i < final(voxels)@.len() ==> (#[trigger] final(voxels)@[i]).3
                == leaf_type,
{
    let mut dx: i32 = -radius;
    while dx <= radius
        invariant
            1 <= radius <= 8,
            -0x4000_0000 <= center.0 <= 0x4000_0000,
            -0x4000_0000 <= center.1 <= 0x4000_0000,
            -0x4000_0000 <= center.2 <= 0x4000_0000,
            -radius <= dx <= radius + 1,
            voxels@.len() >= old(voxels)@.len(),
            forall|k: int| 0 <= k < old(voxels)@.len() ==> voxels@[k] == old(voxels)@[k],
            forall|k: int|
                old(voxels)@.len() <= k < voxels@.len() ==> (#[trigger] voxels@[k]).3 == leaf_type,
        decreases radius + 1 - dx,
    {
        let mut dy: i32 = 0;
        while dy < radius
            invariant
                1 <= radius <= 8,
                -0x4000_0000 <= center.0 <= 0x4000_0000,
                -0x4000_0000 <= center.1 <= 0x4000_0000,
                -0x4000_0000 <= center.2 <= 0x4000_0000,
                -radius <= dx <= radius,
                0 <= dy <= radius,
                voxels@.len() >= old(voxels)@.len(),
                forall|k: int| 0 <= k < old(voxels)@.len() ==> voxels@[k] == old(voxels)@[k],
                forall|k: int|
                    old(voxels)@.len() <= k < voxels@.len() ==> (#[trigger] voxels@[k]).3
                        == leaf_type,
            decreases radius - dy,
        {
            let mut dz: i32 = -radius;
            while dz <= radius
                invariant
                    1 <= radius <= 8,
                    -0x4000_0000 <= center.0 <= 0x4000_0000,
                    -0x4000_0000 <= center.1 <= 0x4000_0000,
                    -0x4000_0000 <= center.2 <= 0x4000_0000,
                    -radius <= dx <= radius,
                    0 <= dy < radius,
                    -radius <= dz <= radius + 1,
                    voxels@.len() >= old(voxels)@.len(),
                    forall|k: int| 0 <= k < old(voxels)@.len() ==> voxels@[k] == old(voxels)@[k],
                    forall|k: int|
                        old(voxels)@.len() <= k < voxels@.len() ==> (#[trigger] voxels@[k]).3
                            == leaf_type,
                decreases radius + 1 - dz,
            {
                proof {
                    assert(0 <= dx as int * dx as int <= 64 && 0 <= dz as int * dz as int <= 64
                        && 0 <= dy as int * dy as int <= 64 && 0 <= radius as int * radius as int
                        <= 64) by (nonlinear_arith)
                        requires
                            -8 <= dx as int <= 8,
                            -8 <= dz as int <= 8,
                            0 <= dy as int <= 8,
                            1 <= radius as int <= 8,
                    ;
                }
                let weighted = 16 * (dx * dx) + 25 * (dy * dy) + 16 * (dz * dz);
                if weighted <= 16 * (radius * radius) {
                    let x = center.0 + dx;
                    let y = center.1 + dy;
                    let z = center.2 + dz;
                    if !position_used(voxels, x, y, z) {
                        voxels.push((x, y, z, leaf_type));
                    }
                }
                dz = dz + 1;
            }
            dy = dy + 1;
        }
        dx = dx + 1;
    }
}

/// Grow one tree: a randomized trunk of the given thickness, branches
/// with a one-in-five chance per mid-trunk wood voxel, and a crown on
/// top. Whatever the draws, the result uses only this tree's wood and
/// leaf types, and a full trunk of some height within `[trunk_lo,
/// trunk_hi)` stands on the base position.
fn generate_tree_generic(
    base_pos: (i32, i32, i32),
    wood: VoxelType,
    leaves: VoxelType,
    trunk_lo: i32,
    trunk_hi: i32,
    branch_lo: i32,
    branch_hi: i32,
    leaf_lo: i32,
    leaf_hi: i32,
    crown_lo: i32,
    crown_hi: i32,
    trunk_thickness: i32,
) -> (r: Vec<(i32, i32, i32, VoxelType)>)
    requires
        -TREE_COORD_LIMIT <= base_pos.0 <= TREE_COORD_LIMIT,
        -TREE_COORD_LIMIT <= base_pos.1 <= TREE_COORD_LIMIT,
        -TREE_COORD_LIMIT <= base_pos.2 <= TREE_COORD_LIMIT,
        1 <= trunk_lo < trunk_hi <= 64,
        1 <= branch_lo < branch_hi <= 16,
        1 <= leaf_lo < leaf_hi <= 8,
        1 <= crown_lo < crown_hi <= 8,
        1 <= trunk_thickness <= 4,
    ensures
        only_tree_material(r@, wood, leaves),
        exists|h: int|
            trunk_lo <= h < trunk_hi && #[trigger] trunk_complete(
                r@,
                base_pos,
                wood,
                trunk_thickness as int,
                h,
            ),
        r@.len() > 0,
{
    let (x, y, z) = base_pos;
    let mut voxels: Vec<(i32, i32, i32, VoxelType)> = Vec::new();
    let trunk_height = rand_range_i32(trunk_lo, trunk_hi);
    let trunk_top = y + trunk_height;
    let thick = trunk_thickness;
    let mut dx: i32 = 0;
    while dx < thick
        invariant
            1 <= thick <= 4,
            1 <= trunk_lo <= trunk_height < trunk_hi <= 64,
            1 <= branch_lo < branch_hi <= 16,
            1 <= leaf_lo < leaf_hi <= 8,
            -TREE_COORD_LIMIT <= x <= TREE_COORD_LIMIT,
            -TREE_COORD_LIMIT <= y <= TREE_COORD_LIMIT,
            -TREE_COORD_LIMIT <= z <= TREE_COORD_LIMIT,
            base_pos == (x, y, z),
            0 <= dx <= thick,
            only_tree_material(voxels@, wood, leaves),
            forall|ax: int, ay: int, az: int|
                0 <= ax < dx && 0 <= ay < trunk_height && 0 <= az < thick ==> #[trigger] has_voxel(
                    voxels@,
                    x + ax,
                    y + ay,
                    z + az,
                    wood,
                ),
        decreases thick - dx,
    {
        let mut dz: i32 = 0;
        while dz < thick
            invariant
                1 <= thick <= 4,
                1 <= trunk_lo <= trunk_height < trunk_hi <= 64,
                1 <= branch_lo < branch_hi <= 16,
                1 <= leaf_lo < leaf_hi <= 8,
                -TREE_COORD_LIMIT <= x <= TREE_COORD_LIMIT,
                -TREE_COORD_LIMIT <= y <= TREE_COORD_LIMIT,
                -TREE_COORD_LIMIT <= z <= TREE_COORD_LIMIT,
                0 <= dx < thick,
                0 <= dz <= thick,
                only_tree_material(voxels@, wood, leaves),
                forall|ax: int, ay: int, az: int|
                    0 <= ax < dx && 0 <= ay < trunk_height && 0 <= az < thick
                        ==> #[trigger] has_voxel(voxels@, x + ax, y + ay, z + az, wood),
                forall|ay: int, az: int|
                    0 <= ay < trunk_height && 0 <= az < dz ==> #[trigger] has_voxel(
                        voxels@,
                        x + dx,
                        y + ay,
                        z + az,
                        wood,
                    ),
            decreases thick - dz,
        {
            let mut dy: i32 = 0;
            while dy < trunk_height
                invariant
                    1 <= thick <= 4,
                    1 <= trunk_lo <= trunk_height < trunk_hi <= 64,
                    1 <= branch_lo < branch_hi <= 16,
                    1 <= leaf_lo < leaf_hi <= 8,
                    -TREE_COORD_LIMIT <= x <= TREE_COORD_LIMIT,
                    -TREE_COORD_LIMIT <= y <= TREE_COORD_LIMIT,
                    -TREE_COORD_LIMIT <= z <= TREE_COORD_LIMIT,
                    0 <= dx < thick,
                    0 <= dz < thick,
                    0 <= dy <= trunk_height,
                    only_tree_material(voxels@, wood, leaves),
                    forall|ax: int, ay: int, az: int|
                        0 <= ax < dx && 0 <= ay < trunk_height && 0 <= az < thick
                            ==> #[trigger] has_voxel(voxels@, x + ax, y + ay, z + az, wood),
                    forall|ay: int, az: int|
                        0 <= ay < trunk_height && 0 <= az < dz ==> #[trigger] has_voxel(
                            voxels@,
                            x + dx,
                            y + ay,
                            z + az,
                            wood,
                        ),
                    forall|ay: int|
                        0 <= ay < dy ==> #[trigger] has_voxel(
                            voxels@,
                            x + dx,
                            y + ay,
                            z + dz,
                            wood,
                        ),
                decreases trunk_height - dy,
            {
                let ghost before = voxels@;
                voxels.push((x + dx, y + dy, z + dz, wood));
                if dy > 5 && dy < trunk_height - 5 && rand_ratio(1, 5) {
                    let start_point = (x + dx, y + dy, z + dz);
                    let max_length = rand_range_i32(branch_lo, branch_hi);
                    let y_offset = rand_range_i32(1, 4);
                    let x_offset = rand_range_i32(-max_length, max_length);
                    let z_offset = rand_range_i32(-max_length, max_length);
                    let end_point = (
                        start_point.0 + x_offset,
                        start_point.1 + y_offset,
                        start_point.2 + z_offset,
                    );
                    let steps = max_length * 2;
                    push_branch(&mut voxels, start_point, end_point, steps, wood);
                    let leaf_radius = rand_range_i32(leaf_lo, leaf_hi);
                    push_leaf_cluster(&mut voxels, end_point, leaves, leaf_radius);
                }
                proof {
                    let now = voxels@;
                    assert(now.len() > before.len());
                    assert(now[before.len() as int] == (((x + dx) as i32), ((y + dy) as i32), ((
                    z + dz) as i32), wood));
                    assert(has_voxel(now, x + dx, y + dy, z + dz, wood)) by {
                        assert((now[before.len() as int]).0 == x + dx);
                    }
                    assert forall|ax: int, ay: int, az: int|
                        0 <= ax < dx && 0 <= ay < trunk_height && 0 <= az < thick implies #[trigger] has_voxel(
                        now,
                        x + ax,
                        y + ay,
                        z + az,
                        wood,
                    ) by {
                        lemma_has_voxel_mono(before, now, x + ax, y + ay, z + az, wood);
                    }
                    assert forall|ay: int, az: int|
                        0 <= ay < trunk_height && 0 <= az < dz implies #[trigger] has_voxel(
                        now,
                        x + dx,
                        y + ay,
                        z + az,
                        wood,
                    ) by {
                        lemma_has_voxel_mono(before, now, x + dx, y + ay, z + az, wood);
                    }
                    assert forall|ay: int| 0 <= ay < dy + 1 implies #[trigger] has_voxel(
                        now,
                        x + dx,
                        y + ay,
                        z + dz,
                        wood,
                    ) by {
                        if ay < dy {
                            lemma_has_voxel_mono(before, now, x + dx, y + ay, z + dz, wood);
                        }
                    }
                }
                dy = dy + 1;
            }
            dz = dz + 1;
        }
        dx = dx + 1;
    }
    let ghost trunk_done = voxels@;
    let crown_radius = rand_range_i32(crown_lo, crown_hi);
    push_crown(&mut voxels, (x, trunk_top, z), leaves, crown_radius);
    proof {
        assert forall|ax: int, ay: int, az: int|
            0 <= ax < thick && 0 <= ay < trunk_height && 0 <= az < thick implies #[trigger] has_voxel(
            voxels@,
            x + ax,
            y + ay,
            z + az,
            wood,
        ) by {
            lemma_has_voxel_mono(trunk_done, voxels@, x + ax, y + ay, z + az, wood);
        }
        assert(trunk_complete(voxels@, base_pos, wood, thick as int, trunk_height as int));
        assert(has_voxel(voxels@, base_pos.0 + 0, base_pos.1 + 0, base_pos.2 + 0, wood));
        assert(voxels@.len() > 0) by {
            let i = choose|i: int|
                0 <= i < voxels@.len() && (#[trigger] voxels@[i]).0 == base_pos.0 + 0
                    && voxels@[i].1 == base_pos.1 + 0 && voxels@[i].2 == base_pos.2 + 0
                    && voxels@[i].3 == wood;
        }
    }
    voxels
}

/// Spruce: a thin tall trunk, short branches, small clusters, and a
/// modest crown.
pub fn generate_spruce_tree(base_pos: (i32, i32, i32)) -> (r: Vec<(i32, i32, i32, VoxelType)>)
    requires
        -TREE_COORD_LIMIT <= base_pos.0 <= TREE_COORD_LIMIT,
        -TREE_COORD_LIMIT <= base_pos.1 <= TREE_COORD_LIMIT,
        -TREE_COORD_LIMIT <= base_pos.2 <= TREE_COORD_LIMIT,
    ensures
        only_tree_material(r@, VoxelType::SpruceWood, VoxelType::SpruceLeaves),
        exists|h: int|
            14 <= h < 22 && #[trigger] trunk_complete(r@, base_pos, VoxelType::SpruceWood, 1, h),
        r@.len() > 0,
{
    generate_tree_generic(
        base_pos,
        VoxelType::SpruceWood,
        VoxelType::SpruceLeaves,
        14,
        22,
        3,
        6,
        1,
        3,
        2,
        4,
        1,
    )
}

/// Mahogany: a broad trunk, long branches, large clusters, and a wide
/// crown.
pub fn generate_mahogany_tree(base_pos: (i32, i32, i32)) -> (r: Vec<(i32, i32, i32, VoxelType)>)
    requires
        -TREE_COORD_LIMIT <= base_pos.0 <= TREE_COORD_LIMIT,
        -TREE_COORD_LIMIT <= base_pos.1 <= TREE_COORD_LIMIT,
        -TREE_COORD_LIMIT <= base_pos.2 <= TREE_COORD_LIMIT,
    ensures
        only_tree_material(r@, VoxelType::MahoganyWood, VoxelType::MahoganyLeaves),
        exists|h: int|
            18 <= h < 32 && #[trigger] trunk_complete(r@, base_pos, VoxelType::MahoganyWood, 2, h),
        r@.len() > 0,
{
    let thickness = rand_range_i32(2, 3);
    generate_tree_generic(
        base_pos,
        VoxelType::MahoganyWood,
        VoxelType::MahoganyLeaves,
        18,
        32,
        7,
        12,
        2,
        4,
        3,
        5,
        thickness,
    )
}

/// Walnut: a short squat trunk of thickness two with a rounded crown.
pub fn generate_walnut_tree(base_pos: (i32, i32, i32)) -> (r: Vec<(i32, i32, i32, VoxelType)>)
    requires
        -TREE_COORD_LIMIT <= base_pos.0 <= TREE_COORD_LIMIT,
        -TREE_COORD_LIMIT <= base_pos.1 <= TREE_COORD_LIMIT,
        -TREE_COORD_LIMIT <= base_pos.2 <= TREE_COORD_LIMIT,
    ensures
        only_tree_material(r@, VoxelType::WalnutWood, VoxelType::WalnutLeaves),
        exists|h: int|
            3 <= h < 7 && #[trigger] trunk_complete(r@, base_pos, VoxelType::WalnutWood, 2, h),
        r@.len() > 0,
{
    generate_tree_generic(
        base_pos,
        VoxelType::WalnutWood,
        VoxelType::WalnutLeaves,
        3,
        7,
        2,
        5,
        1,
        3,
        2,
        4,
        2,
    )
}

} // verus!
