//! The visibility rules.
//!
//! A chunk's contents are modeled as a map from relative positions (as
//! integer triples) to blocks. A cell is *covered* when it lies inside the
//! chunk's valid range and holds a block. A block is *enclosed* when all 26
//! of its neighboring cells are covered, and *exposed* otherwise: any empty
//! neighbor, or any neighbor outside the chunk's range, exposes it. Only the
//! owning chunk is consulted; blocks in adjacent chunks are never counted,
//! so a block on a chunk face is always exposed on that side.

use vstd::arithmetic::div_mod::{
    lemma_fundamental_div_mod, lemma_fundamental_div_mod_converse,
    lemma_mod_division_less_than_divisor, lemma_div_pos_is_pos,
};
use vstd::prelude::*;

use crate::block::{rel_in_range, Block};

verus! {

/// The contents of one chunk: which relative positions hold which block.
pub type Occupancy = Map<(int, int, int), Block>;

/// Whether the cell `(x, y, z)` is inside the chunk's range and occupied.
pub open spec fn covered(m: Occupancy, x: int, y: int, z: int) -> bool {
    rel_in_range(x, y, z) && m.dom().contains((x, y, z))
}

/// Whether all 26 cells neighboring `(x, y, z)` are inside the chunk's
/// range and occupied.
pub open spec fn enclosed(m: Occupancy, x: int, y: int, z: int) -> bool {
    &&& covered(m, x - 1, y - 1, z - 1)
    &&& covered(m, x - 1, y - 1, z)
    &&& covered(m, x - 1, y - 1, z + 1)
    &&& covered(m, x - 1, y, z - 1)
    &&& covered(m, x - 1, y, z)
    &&& covered(m, x - 1, y, z + 1)
    &&& covered(m, x - 1, y + 1, z - 1)
    &&& covered(m, x - 1, y + 1, z)
    &&& covered(m, x - 1, y + 1, z + 1)
    &&& covered(m, x, y - 1, z - 1)
    &&& covered(m, x, y - 1, z)
    &&& covered(m, x, y - 1, z + 1)
    &&& covered(m, x, y, z - 1)
    &&& covered(m, x, y, z + 1)
    &&& covered(m, x, y + 1, z - 1)
    &&& covered(m, x, y + 1, z)
    &&& covered(m, x, y + 1, z + 1)
    &&& covered(m, x + 1, y - 1, z - 1)
    &&& covered(m, x + 1, y - 1, z)
    &&& covered(m, x + 1, y - 1, z + 1)
    &&& covered(m, x + 1, y, z - 1)
    &&& covered(m, x + 1, y, z)
    &&& covered(m, x + 1, y, z + 1)
    &&& covered(m, x + 1, y + 1, z - 1)
    &&& covered(m, x + 1, y + 1, z)
    &&& covered(m, x + 1, y + 1, z + 1)
}

/// A block is exposed when some neighboring cell is empty or out of range.
pub open spec fn exposed(m: Occupancy, x: int, y: int, z: int) -> bool {
    !enclosed(m, x, y, z)
}

/// Whether `(qx, qy, qz)` is one of the 26 cells neighboring
/// `(px, py, pz)`: each axis differs by at most one, and not all agree.
pub open spec fn is_neighbor(px: int, py: int, pz: int, qx: int, qy: int, qz: int) -> bool {
    &&& -1 <= qx - px <= 1
    &&& -1 <= qy - py <= 1
    &&& -1 <= qz - pz <= 1
    &&& !(qx == px && qy == py && qz == pz)
}

/// The 27 cells of a position's 3x3x3 surrounding box, numbered so that
/// index `j` decomposes in base three into the three axis offsets.
/// Index `CENTER` is the position itself, not a neighbor.
pub const CENTER: u8 = 13;

/// The x offset of the `j`-th cell of the surrounding box.
pub open spec fn cand_dx(j: int) -> int {
    j / 9 - 1
}

/// The y offset of the `j`-th cell of the surrounding box.
pub open spec fn cand_dy(j: int) -> int {
    (j % 9) / 3 - 1
}

/// The z offset of the `j`-th cell of the surrounding box.
pub open spec fn cand_dz(j: int) -> int {
    (j % 9) % 3 - 1
}

/// Whether the `j`-th cell of the box around `(x, y, z)` is covered.
pub open spec fn covered_cand(m: Occupancy, x: int, y: int, z: int, j: int) -> bool {
    covered(m, x + cand_dx(j), y + cand_dy(j), z + cand_dz(j))
}

/// The `j`-th cell of the box around `(x, y, z)` as a relative position.
/// Meaningful only when that cell lies inside the chunk's range.
pub open spec fn cand_rel(x: int, y: int, z: int, j: int) -> crate::block::RelPos {
    crate::block::RelPos {
        x: (x + cand_dx(j)) as u8,
        y: (y + cand_dy(j)) as u8,
        z: (z + cand_dz(j)) as u8,
    }
}

/// The box index a neighbor position `q` of `(x, y, z)` would carry.
pub open spec fn box_index(x: int, y: int, z: int, q: crate::block::RelPos) -> int {
    9 * (q@.0 - x + 1) + 3 * (q@.1 - y + 1) + (q@.2 - z + 1)
}

/// What a full visibility pass over the contents `m` reports: every entry
/// pairs an occupied position with its exposure, no position is reported
/// twice, and every occupied position is reported.
pub open spec fn is_visibility_report(m: Occupancy, rep: Seq<(crate::block::RelPos, bool)>) -> bool {
    &&& forall|i: int|
        0 <= i < rep.len() ==> {
            let (q, v) = #[trigger] rep[i];
            &&& q.valid()
            &&& m.dom().contains(q@)
            &&& v == exposed(m, q@.0, q@.1, q@.2)
        }
    &&& forall|i1: int, i2: int| 0 <= i1 < i2 < rep.len() ==> rep[i1].0 != rep[i2].0
    &&& forall|qx: int, qy: int, qz: int|
        #[trigger] m.dom().contains((qx, qy, qz)) ==> exists|i: int|
            0 <= i < rep.len() && rep[i].0 == (crate::block::RelPos {
                x: qx as u8,
                y: qy as u8,
                z: qz as u8,
            })
}

/// How many of the first `k` cells of the surrounding box, the center
/// excluded, are covered.
pub open spec fn count_covered(m: Occupancy, x: int, y: int, z: int, k: int) -> int
    decreases k,
{
    if k <= 0 {
        0
    } else {
        count_covered(m, x, y, z, k - 1) + if k - 1 != CENTER && covered_cand(
            m,
            x,
            y,
            z,
            k - 1,
        ) {
            1int
        } else {
            0int
        }
    }
}

/// How many of the first `k` cells of the surrounding box are neighbors,
/// that is, all of them but the center.
pub open spec fn cand_total(k: int) -> int {
    if k <= CENTER {
        k
    } else {
        k - 1
    }
}

/// The box indices `0 <= j < 27` decompose in base three into offsets
/// `-1..=1` on each axis, and the decomposition determines the index.
pub proof fn lemma_cand_decompose(j: int)
    requires
        0 <= j < 27,
    ensures
        -1 <= cand_dx(j) <= 1,
        -1 <= cand_dy(j) <= 1,
        -1 <= cand_dz(j) <= 1,
        j == 9 * (cand_dx(j) + 1) + 3 * (cand_dy(j) + 1) + (cand_dz(j) + 1),
{
    lemma_fundamental_div_mod(j, 9);
    lemma_mod_division_less_than_divisor(j, 9);
    lemma_div_pos_is_pos(j, 9);
    lemma_fundamental_div_mod(j % 9, 3);
    lemma_mod_division_less_than_divisor(j % 9, 3);
    lemma_div_pos_is_pos(j % 9, 3);
}

/// The box index of a given offset triple: offsets `-1..=1` on each axis
/// reach exactly the indices `0 <= j < 27`, with the center at `CENTER`.
pub proof fn lemma_cand_compose(dx: int, dy: int, dz: int)
    requires
        -1 <= dx <= 1,
        -1 <= dy <= 1,
        -1 <= dz <= 1,
    ensures
        ({
            let j = 9 * (dx + 1) + 3 * (dy + 1) + (dz + 1);
            &&& 0 <= j < 27
            &&& cand_dx(j) == dx
            &&& cand_dy(j) == dy
            &&& cand_dz(j) == dz
            &&& (j == CENTER <==> (dx == 0 && dy == 0 && dz == 0))
        }),
{
    let j = 9 * (dx + 1) + 3 * (dy + 1) + (dz + 1);
    lemma_fundamental_div_mod_converse(j, 9, dx + 1, 3 * (dy + 1) + (dz + 1));
    lemma_fundamental_div_mod_converse(j % 9, 3, dy + 1, dz + 1);
}

/// A block is enclosed exactly when every non-center cell of its
/// surrounding box is covered.
pub proof fn lemma_enclosed_iff_all_cand(m: Occupancy, x: int, y: int, z: int)
    ensures
        enclosed(m, x, y, z) <==> (forall|j: int|
            0 <= j < 27 && j != CENTER ==> covered_cand(m, x, y, z, j)),
{
    if enclosed(m, x, y, z) {
        assert forall|j: int| 0 <= j < 27 && j != CENTER implies covered_cand(
            m,
            x,
            y,
            z,
            j,
        ) by {
            lemma_cand_decompose(j);
        }
    }
    if forall|j: int| 0 <= j < 27 && j != CENTER ==> covered_cand(m, x, y, z, j) {
        assert(covered_cand(m, x, y, z, 0));
        assert(covered_cand(m, x, y, z, 1));
        assert(covered_cand(m, x, y, z, 2));
        assert(covered_cand(m, x, y, z, 3));
        assert(covered_cand(m, x, y, z, 4));
        assert(covered_cand(m, x, y, z, 5));
        assert(covered_cand(m, x, y, z, 6));
        assert(covered_cand(m, x, y, z, 7));
        assert(covered_cand(m, x, y, z, 8));
        assert(covered_cand(m, x, y, z, 9));
        assert(covered_cand(m, x, y, z, 10));
        assert(covered_cand(m, x, y, z, 11));
        assert(covered_cand(m, x, y, z, 12));
        assert(covered_cand(m, x, y, z, 14));
        assert(covered_cand(m, x, y, z, 15));
        assert(covered_cand(m, x, y, z, 16));
        assert(covered_cand(m, x, y, z, 17));
        assert(covered_cand(m, x, y, z, 18));
        assert(covered_cand(m, x, y, z, 19));
        assert(covered_cand(m, x, y, z, 20));
        assert(covered_cand(m, x, y, z, 21));
        assert(covered_cand(m, x, y, z, 22));
        assert(covered_cand(m, x, y, z, 23));
        assert(covered_cand(m, x, y, z, 24));
        assert(covered_cand(m, x, y, z, 25));
        assert(covered_cand(m, x, y, z, 26));
        assert(enclosed(m, x, y, z));
    }
}

/// How the covered count relates to the number of neighbors seen so far:
/// it never exceeds it, and reaches it exactly when every neighbor cell
/// seen so far is covered.
pub proof fn lemma_count_covered_props(m: Occupancy, x: int, y: int, z: int, k: int)
    requires
        0 <= k <= 27,
    ensures
        0 <= count_covered(m, x, y, z, k) <= cand_total(k),
        count_covered(m, x, y, z, k) == cand_total(k) <==> (forall|j: int|
            0 <= j < k && j != CENTER ==> covered_cand(m, x, y, z, j)),
    decreases k,
{
    if k > 0 {
        lemma_count_covered_props(m, x, y, z, k - 1);
        if count_covered(m, x, y, z, k) == cand_total(k) {
            assert forall|j: int| 0 <= j < k && j != CENTER implies covered_cand(
                m,
                x,
                y,
                z,
                j,
            ) by {
                if j < k - 1 {
                    assert(count_covered(m, x, y, z, k - 1) == cand_total(k - 1));
                }
            }
        }
        if forall|j: int| 0 <= j < k && j != CENTER ==> covered_cand(m, x, y, z, j) {
            assert forall|j: int| 0 <= j < k - 1 && j != CENTER implies covered_cand(
                m,
                x,
                y,
                z,
                j,
            ) by {
                assert(0 <= j < k && j != CENTER);
            }
            if k - 1 != CENTER {
                assert(covered_cand(m, x, y, z, k - 1));
            }
        }
    }
}

/// Adding a block can only narrow exposure: a block enclosed before the
/// addition stays enclosed, and a block exposed after the addition was
/// already exposed before. Exposure never goes from enclosed to exposed
/// when a block is added and nothing else changes.
pub proof fn lemma_exposure_monotone(
    m: Occupancy,
    qx: int,
    qy: int,
    qz: int,
    b: Block,
    x: int,
    y: int,
    z: int,
)
    ensures
        enclosed(m, x, y, z) ==> enclosed(m.insert((qx, qy, qz), b), x, y, z),
        exposed(m.insert((qx, qy, qz), b), x, y, z) ==> exposed(m, x, y, z),
{
}

/// A block whose relative position touches the chunk's horizontal
/// boundary is exposed whatever the chunk holds: the neighbor cell beyond
/// the boundary is outside the valid range and never counts as covered.
pub proof fn lemma_boundary_exposed(m: Occupancy, x: int, y: int, z: int)
    requires
        rel_in_range(x, y, z),
        x == 0 || x == crate::block::CHUNK_DIM - 1 || z == 0 || z == crate::block::CHUNK_DIM - 1,
    ensures
        exposed(m, x, y, z),
{
}

/// Whether the chunk's contents are exactly a solid cuboid fill covering
/// `[x0, x1)` by `[y0, y1)` by `[z0, z1)`.
pub open spec fn cuboid_filled(
    m: Occupancy,
    x0: int,
    y0: int,
    z0: int,
    x1: int,
    y1: int,
    z1: int,
) -> bool {
    forall|x: int, y: int, z: int|
        m.dom().contains((x, y, z)) <==> (x0 <= x < x1 && y0 <= y < y1 && z0 <= z < z1)
}

/// In a solid cuboid fill of size at least three on every axis, every
/// block strictly interior to the cuboid is enclosed.
pub proof fn lemma_cuboid_interior_enclosed(
    m: Occupancy,
    x0: int,
    y0: int,
    z0: int,
    x1: int,
    y1: int,
    z1: int,
    x: int,
    y: int,
    z: int,
)
    requires
        cuboid_filled(m, x0, y0, z0, x1, y1, z1),
        rel_in_range(x0, y0, z0),
        rel_in_range(x1 - 1, y1 - 1, z1 - 1),
        x1 - x0 >= 3,
        y1 - y0 >= 3,
        z1 - z0 >= 3,
        x0 < x < x1 - 1,
        y0 < y < y1 - 1,
        z0 < z < z1 - 1,
    ensures
        enclosed(m, x, y, z),
{
}

/// In a solid cuboid fill of size at least three on every axis, every
/// block on a face of the cuboid is exposed.
pub proof fn lemma_cuboid_face_exposed(
    m: Occupancy,
    x0: int,
    y0: int,
    z0: int,
    x1: int,
    y1: int,
    z1: int,
    x: int,
    y: int,
    z: int,
)
    requires
        cuboid_filled(m, x0, y0, z0, x1, y1, z1),
        rel_in_range(x0, y0, z0),
        rel_in_range(x1 - 1, y1 - 1, z1 - 1),
        x1 - x0 >= 3,
        y1 - y0 >= 3,
        z1 - z0 >= 3,
        x0 <= x < x1,
        y0 <= y < y1,
        z0 <= z < z1,
        x == x0 || x == x1 - 1 || y == y0 || y == y1 - 1 || z == z0 || z == z1 - 1,
    ensures
        exposed(m, x, y, z),
{
    if x == x0 {
        assert(!m.dom().contains((x - 1, y, z)));
    } else if x == x1 - 1 {
        assert(!m.dom().contains((x + 1, y, z)));
    } else if y == y0 {
        assert(!m.dom().contains((x, y - 1, z)));
    } else if y == y1 - 1 {
        assert(!m.dom().contains((x, y + 1, z)));
    } else if z == z0 {
        assert(!m.dom().contains((x, y, z - 1)));
    } else {
        assert(!m.dom().contains((x, y, z + 1)));
    }
}

} // verus!
