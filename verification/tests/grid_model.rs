use solarsim::grid::{
    from_grid, rebase, relative, to_grid, to_grid_axis, rebase_axis, GridCell, Vec3i,
    CELL_EDGE_UM, COORD_LIMIT_UM, HALF_CELL_UM,
};

#[test]
fn round_trip_small_vector() {
    let v = Vec3i::new(123_456, -789_012, 0);
    let (cell, offset) = to_grid(v);
    let back = from_grid(cell, offset);
    assert_eq!(back, v);
}

#[test]
fn round_trip_interplanetary_vector() {
    // 1e12 m on each axis, expressed in micrometers: reconstruction is exact,
    // not merely within a tolerance.
    let v = Vec3i::new(
        1_000_000_000_000_000_000,
        -1_000_000_000_000_000_000,
        999_999_999_999_999_999,
    );
    let (cell, offset) = to_grid(v);
    let back = from_grid(cell, offset);
    assert_eq!(back, v);
    // offsets are canonical
    assert!(offset.x >= -HALF_CELL_UM && offset.x < HALF_CELL_UM);
    assert!(offset.y >= -HALF_CELL_UM && offset.y < HALF_CELL_UM);
    assert!(offset.z >= -HALF_CELL_UM && offset.z < HALF_CELL_UM);
}

#[test]
fn round_trip_at_coordinate_limit() {
    let v = Vec3i::new(COORD_LIMIT_UM, -COORD_LIMIT_UM, COORD_LIMIT_UM);
    let (cell, offset) = to_grid(v);
    assert_eq!(from_grid(cell, offset), v);
}

#[test]
fn partition_values_exact() {
    // 2.5 cells: lands in cell 3 with offset -half.
    let (c, o) = to_grid_axis(25_000_000_000);
    assert_eq!(c, 3);
    assert_eq!(o, -5_000_000_000);
    assert_eq!(c * CELL_EDGE_UM + o, 25_000_000_000);
}

#[test]
fn rebasing_is_idempotent() {
    // A wildly out-of-bound offset is folded into the cell; doing it again
    // changes nothing.
    let cell = GridCell::new(5, -7, 100);
    let offset = Vec3i::new(37_000_000_123, -26_000_000_001, 4_999_999_999);
    let (c1, o1) = rebase(cell, offset);
    let (c2, o2) = rebase(c1, o1);
    assert_eq!(c1, c2);
    assert_eq!(o1, o2);
    // and the absolute position was preserved
    assert_eq!(
        from_grid(c1, o1),
        Vec3i::new(
            5 * CELL_EDGE_UM + 37_000_000_123,
            -7 * CELL_EDGE_UM - 26_000_000_001,
            100 * CELL_EDGE_UM + 4_999_999_999
        )
    );
}

#[test]
fn rebase_axis_no_op_when_canonical() {
    let (c, o) = rebase_axis(42, -4_999_999_999);
    assert_eq!(c, 42);
    assert_eq!(o, -4_999_999_999);
}

#[test]
fn relative_far_pair_is_exact() {
    // Two positions about 4.5e12 m apart on x; the relative vector comes out
    // exactly, through the integer cell delta.
    let a_abs = Vec3i::new(2_250_000_000_000_000_321, 0, -17);
    let b_abs = Vec3i::new(-2_250_000_000_000_000_123, 44, 0);
    let (ca, _oa) = to_grid(a_abs);
    let (cb, ob) = to_grid(b_abs);
    let rel = relative(cb, ob, ca);
    // relative() gives b relative to a's cell origin; subtracting a's offset
    // gives the exact separation.
    let (_, oa) = to_grid(a_abs);
    assert_eq!(rel.x - oa.x, b_abs.x - a_abs.x);
    assert_eq!(rel.y - oa.y, b_abs.y - a_abs.y);
    assert_eq!(rel.z - oa.z, b_abs.z - a_abs.z);
}
