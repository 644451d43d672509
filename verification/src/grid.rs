//! The coordinate model: an absolute position on one axis is a grid cell
//! index times the cell edge plus a local offset, both integers counting
//! micrometers.  Keeping the offset small preserves fine resolution no matter
//! how far from the origin a body sits; rebasing restores that bound without
//! moving the represented absolute position.

use vstd::prelude::*;
use vstd::arithmetic::div_mod::{lemma_fundamental_div_mod, lemma_fundamental_div_mod_converse};

verus! {

/// Edge length of one grid cell in micrometers (10 km).
pub const CELL_EDGE_UM: i64 = 10_000_000_000;

/// Half a cell edge; canonical local offsets lie in `[-HALF_CELL_UM, HALF_CELL_UM)`.
pub const HALF_CELL_UM: i64 = 5_000_000_000;

/// Largest absolute coordinate on one axis, in micrometers (4.5e12 m, past Neptune).
pub const COORD_LIMIT_UM: i64 = 4_500_000_000_000_000_000;

/// A 3-vector of micrometer-resolution fixed-point coordinates.
#[derive(Clone, Copy, Debug, PartialEq, Eq, Structural)]
pub struct Vec3i {
    pub x: i64,
    pub y: i64,
    pub z: i64,
}

/// Integer index of a coarse spatial partition, one index per axis.
#[derive(Clone, Copy, Debug, PartialEq, Eq, Structural)]
pub struct GridCell {
    pub x: i64,
    pub y: i64,
    pub z: i64,
}

impl Vec3i {
    pub fn new(x: i64, y: i64, z: i64) -> (r: Vec3i)
        ensures
            r == (Vec3i { x, y, z }),
    {
        Vec3i { x, y, z }
    }

    pub fn zero() -> (r: Vec3i)
        ensures
            r == (Vec3i { x: 0i64, y: 0i64, z: 0i64 }),
    {
        Vec3i { x: 0, y: 0, z: 0 }
    }
}

impl GridCell {
    pub fn new(x: i64, y: i64, z: i64) -> (r: GridCell)
        ensures
            r == (GridCell { x, y, z }),
    {
        GridCell { x, y, z }
    }

    pub fn zero() -> (r: GridCell)
        ensures
            r == (GridCell { x: 0i64, y: 0i64, z: 0i64 }),
    {
        GridCell { x: 0, y: 0, z: 0 }
    }
}

/// Cell index that the partition assigns to absolute coordinate `a`.
pub open spec fn grid_cell_of(a: int) -> int {
    (a + HALF_CELL_UM) / (CELL_EDGE_UM as int)
}

/// Local offset that the partition assigns to absolute coordinate `a`.
pub open spec fn local_offset_of(a: int) -> int {
    a - grid_cell_of(a) * CELL_EDGE_UM
}

/// Absolute coordinate represented by cell `c` with offset `o`.
pub open spec fn axis_abs(c: int, o: int) -> int {
    c * CELL_EDGE_UM + o
}

/// A local offset is canonical when it lies within half a cell of the cell origin.
pub open spec fn offset_canonical(o: int) -> bool {
    -HALF_CELL_UM <= o < HALF_CELL_UM
}

/// A (cell, offset) pair is in range when its absolute coordinate is bounded.
pub open spec fn axis_in_range(c: int, o: int) -> bool {
    -COORD_LIMIT_UM <= axis_abs(c, o) <= COORD_LIMIT_UM
}

/// The partition of `a` is canonical and reconstructs `a` exactly.
pub proof fn lemma_partition(a: int)
    ensures
        axis_abs(grid_cell_of(a), local_offset_of(a)) == a,
        offset_canonical(local_offset_of(a)),
{
    lemma_fundamental_div_mod(a + HALF_CELL_UM, CELL_EDGE_UM as int);
}

/// Round-trip law: partitioning an absolute coordinate into a cell and an
/// offset and then reconstructing the absolute coordinate gives back exactly
/// the coordinate that was partitioned.
pub proof fn lemma_to_grid_round_trip(a: int)
    ensures
        axis_abs(grid_cell_of(a), local_offset_of(a)) == a,
{
    lemma_partition(a);
}

/// A canonical offset is already its own partition: its cell index is zero.
pub proof fn lemma_canonical_fixpoint(o: int)
    requires
        offset_canonical(o),
    ensures
        grid_cell_of(o) == 0,
        local_offset_of(o) == o,
{
    lemma_fundamental_div_mod_converse(o + HALF_CELL_UM, CELL_EDGE_UM as int, 0, o + HALF_CELL_UM);
}

/// Rebasing law: one rebasing pass makes the offset canonical while keeping
/// the absolute position, so a second pass without intervening displacement
/// returns exactly the same (cell, offset) pair.
pub proof fn lemma_rebase_idempotent(c: int, o: int)
    ensures
        axis_abs(c + grid_cell_of(o), local_offset_of(o)) == axis_abs(c, o),
        offset_canonical(local_offset_of(o)),
        c + grid_cell_of(o) + grid_cell_of(local_offset_of(o)) == c + grid_cell_of(o),
        local_offset_of(local_offset_of(o)) == local_offset_of(o),
{
    lemma_partition(o);
    lemma_canonical_fixpoint(local_offset_of(o));
}

/// Floor division by a positive divisor, on signed fixed-point values.
pub(crate) fn div_floor_i64(a: i64, d: i64) -> (q: i64)
    requires
        0 < d,
        i64::MIN < a,
    ensures
        q == a as int / d as int,
{
    if a >= 0 {
        let q0: u64 = (a as u64) / (d as u64);
        proof {
            lemma_fundamental_div_mod(a as int, d as int);
        }
        q0 as i64
    } else {
        let m: u64 = (-a) as u64;
        let q0: u64 = m / (d as u64);
        let r0: u64 = m % (d as u64);
        proof {
            lemma_fundamental_div_mod(m as int, d as int);
            assert(m == d * (m as int / d as int) + (m as int % d as int));
            assert(q0 == m as int / d as int);
            assert(r0 == m as int % d as int);
            assert(m == d * q0 + r0);
        }
        if r0 == 0 {
            proof {
                assert(a as int == (-(q0 as int)) * (d as int) + 0) by (nonlinear_arith)
                    requires
                        a as int == -(m as int),
                        m == d * q0 + r0,
                        r0 == 0,
                ;
                lemma_fundamental_div_mod_converse(a as int, d as int, -(q0 as int), 0);
            }
            -(q0 as i64)
        } else {
            proof {
                assert(a as int == (-(q0 as int) - 1) * (d as int) + (d - r0)) by (nonlinear_arith)
                    requires
                        a as int == -(m as int),
                        m == d * q0 + r0,
                ;
                lemma_fundamental_div_mod_converse(
                    a as int,
                    d as int,
                    -(q0 as int) - 1,
                    d - r0,
                );
            }
            -(q0 as i64) - 1
        }
    }
}

/// Partition one axis: split an absolute micrometer coordinate into a cell
/// index and a canonical local offset that reconstruct it exactly.
pub fn to_grid_axis(a: i64) -> (r: (i64, i64))
    requires
        -COORD_LIMIT_UM <= a <= COORD_LIMIT_UM,
    ensures
        r.0 == grid_cell_of(a as int),
        r.1 == local_offset_of(a as int),
        axis_abs(r.0 as int, r.1 as int) == a,
        offset_canonical(r.1 as int),
{
    proof {
        lemma_partition(a as int);
    }
    let c: i64 = div_floor_i64(a + HALF_CELL_UM, CELL_EDGE_UM);
    let o: i64 = a - c * CELL_EDGE_UM;
    (c, o)
}

/// Partition an absolute micrometer position into a grid cell and a canonical
/// local offset, axis by axis.
pub fn to_grid(a: Vec3i) -> (r: (GridCell, Vec3i))
    requires
        -COORD_LIMIT_UM <= a.x <= COORD_LIMIT_UM,
        -COORD_LIMIT_UM <= a.y <= COORD_LIMIT_UM,
        -COORD_LIMIT_UM <= a.z <= COORD_LIMIT_UM,
    ensures
        r.0.x == grid_cell_of(a.x as int) && r.1.x == local_offset_of(a.x as int),
        r.0.y == grid_cell_of(a.y as int) && r.1.y == local_offset_of(a.y as int),
        r.0.z == grid_cell_of(a.z as int) && r.1.z == local_offset_of(a.z as int),
        axis_abs(r.0.x as int, r.1.x as int) == a.x,
        axis_abs(r.0.y as int, r.1.y as int) == a.y,
        axis_abs(r.0.z as int, r.1.z as int) == a.z,
        offset_canonical(r.1.x as int),
        offset_canonical(r.1.y as int),
        offset_canonical(r.1.z as int),
{
    let (cx, ox) = to_grid_axis(a.x);
    let (cy, oy) = to_grid_axis(a.y);
    let (cz, oz) = to_grid_axis(a.z);
    (GridCell { x: cx, y: cy, z: cz }, Vec3i { x: ox, y: oy, z: oz })
}

/// Reconstruct the absolute micrometer position that a cell and offset encode.
pub fn from_grid(c: GridCell, o: Vec3i) -> (r: Vec3i)
    requires
        axis_in_range(c.x as int, o.x as int),
        axis_in_range(c.y as int, o.y as int),
        axis_in_range(c.z as int, o.z as int),
        offset_canonical(o.x as int),
        offset_canonical(o.y as int),
        offset_canonical(o.z as int),
    ensures
        r.x == axis_abs(c.x as int, o.x as int),
        r.y == axis_abs(c.y as int, o.y as int),
        r.z == axis_abs(c.z as int, o.z as int),
{
    Vec3i {
        x: c.x * CELL_EDGE_UM + o.x,
        y: c.y * CELL_EDGE_UM + o.y,
        z: c.z * CELL_EDGE_UM + o.z,
    }
}

/// Rebase one axis: fold any out-of-bound part of the offset into the cell
/// index.  The absolute coordinate is preserved exactly, the new offset is
/// canonical, and rebasing an already canonical pair changes nothing.
pub fn rebase_axis(c: i64, o: i64) -> (r: (i64, i64))
    requires
        -COORD_LIMIT_UM <= axis_abs(c as int, o as int) <= COORD_LIMIT_UM,
        -COORD_LIMIT_UM <= o && o <= COORD_LIMIT_UM,
    ensures
        r.0 == c + grid_cell_of(o as int),
        r.1 == local_offset_of(o as int),
        axis_abs(r.0 as int, r.1 as int) == axis_abs(c as int, o as int),
        offset_canonical(r.1 as int),
{
    proof {
        lemma_partition(o as int);
        assert(c * CELL_EDGE_UM + o == axis_abs(c as int, o as int));
        assert((c + grid_cell_of(o as int)) * CELL_EDGE_UM
            == c * CELL_EDGE_UM + grid_cell_of(o as int) * CELL_EDGE_UM)
            by (nonlinear_arith);
    }
    let carry: i64 = div_floor_i64(o + HALF_CELL_UM, CELL_EDGE_UM);
    let new_o: i64 = o - carry * CELL_EDGE_UM;
    (c + carry, new_o)
}

/// Rebase a full position, axis by axis.
pub fn rebase(c: GridCell, o: Vec3i) -> (r: (GridCell, Vec3i))
    requires
        axis_in_range(c.x as int, o.x as int),
        axis_in_range(c.y as int, o.y as int),
        axis_in_range(c.z as int, o.z as int),
        -COORD_LIMIT_UM <= o.x <= COORD_LIMIT_UM,
        -COORD_LIMIT_UM <= o.y <= COORD_LIMIT_UM,
        -COORD_LIMIT_UM <= o.z <= COORD_LIMIT_UM,
    ensures
        r.0.x == c.x + grid_cell_of(o.x as int) && r.1.x == local_offset_of(o.x as int),
        r.0.y == c.y + grid_cell_of(o.y as int) && r.1.y == local_offset_of(o.y as int),
        r.0.z == c.z + grid_cell_of(o.z as int) && r.1.z == local_offset_of(o.z as int),
        axis_abs(r.0.x as int, r.1.x as int) == axis_abs(c.x as int, o.x as int),
        axis_abs(r.0.y as int, r.1.y as int) == axis_abs(c.y as int, o.y as int),
        axis_abs(r.0.z as int, r.1.z as int) == axis_abs(c.z as int, o.z as int),
        offset_canonical(r.1.x as int),
        offset_canonical(r.1.y as int),
        offset_canonical(r.1.z as int),
{
    let (cx, ox) = rebase_axis(c.x, o.x);
    let (cy, oy) = rebase_axis(c.y, o.y);
    let (cz, oz) = rebase_axis(c.z, o.z);
    (GridCell { x: cx, y: cy, z: cz }, Vec3i { x: ox, y: oy, z: oz })
}

/// Position of `other` (cell plus local offset) relative to the origin of
/// `cell_self`, computed from the exact integer cell delta so that no
/// precision is lost however far both positions are from the global origin.
pub fn relative(cell_other: GridCell, offset_other: Vec3i, cell_self: GridCell) -> (r: Vec3i)
    requires
        axis_in_range(cell_other.x as int, offset_other.x as int),
        axis_in_range(cell_other.y as int, offset_other.y as int),
        axis_in_range(cell_other.z as int, offset_other.z as int),
        offset_canonical(offset_other.x as int),
        offset_canonical(offset_other.y as int),
        offset_canonical(offset_other.z as int),
        -COORD_LIMIT_UM - HALF_CELL_UM <= cell_self.x * CELL_EDGE_UM <= COORD_LIMIT_UM + HALF_CELL_UM,
        -COORD_LIMIT_UM - HALF_CELL_UM <= cell_self.y * CELL_EDGE_UM <= COORD_LIMIT_UM + HALF_CELL_UM,
        -COORD_LIMIT_UM - HALF_CELL_UM <= cell_self.z * CELL_EDGE_UM <= COORD_LIMIT_UM + HALF_CELL_UM,
    ensures
        r.x == axis_abs(cell_other.x as int, offset_other.x as int) - cell_self.x * CELL_EDGE_UM,
        r.y == axis_abs(cell_other.y as int, offset_other.y as int) - cell_self.y * CELL_EDGE_UM,
        r.z == axis_abs(cell_other.z as int, offset_other.z as int) - cell_self.z * CELL_EDGE_UM,
{
    proof {
        assert((cell_other.x - cell_self.x) * CELL_EDGE_UM
            == cell_other.x * CELL_EDGE_UM - cell_self.x * CELL_EDGE_UM) by (nonlinear_arith);
        assert((cell_other.y - cell_self.y) * CELL_EDGE_UM
            == cell_other.y * CELL_EDGE_UM - cell_self.y * CELL_EDGE_UM) by (nonlinear_arith);
        assert((cell_other.z - cell_self.z) * CELL_EDGE_UM
            == cell_other.z * CELL_EDGE_UM - cell_self.z * CELL_EDGE_UM) by (nonlinear_arith);
    }
    let dx: i64 = cell_other.x - cell_self.x;
    let dy: i64 = cell_other.y - cell_self.y;
    let dz: i64 = cell_other.z - cell_self.z;
    Vec3i {
        x: dx * CELL_EDGE_UM + offset_other.x,
        y: dy * CELL_EDGE_UM + offset_other.y,
        z: dz * CELL_EDGE_UM + offset_other.z,
    }
}

} // verus!
