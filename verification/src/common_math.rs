//! Commonly used math functions: squared and plain Euclidean distances in two
//! and three dimensions, and the integer square root they rest on.
//! Coordinates are micrometer-resolution fixed-point integers; a distance is
//! the floor of the exact real distance at that resolution.

use vstd::prelude::*;

verus! {

use crate::grid::COORD_LIMIT_UM;

/// Square of an integer.
pub open spec fn sq(a: int) -> int {
    a * a
}

/// Floor of the real square root of a non-negative integer.
pub open spec fn sqrt_floor(n: int) -> int {
    choose|r: int| 0 <= r && #[trigger] sq(r) <= n < sq(r + 1)
}

/// Every non-negative integer has an integer square-root floor.
pub proof fn lemma_sqrt_floor_exists(n: int)
    requires
        0 <= n,
    ensures
        exists|r: int| 0 <= r && #[trigger] sq(r) <= n < sq(r + 1),
    decreases n,
{
    if n == 0 {
        assert(0 <= 0 && sq(0) <= n < sq(1));
    } else {
        lemma_sqrt_floor_exists(n - 1);
        let p = choose|r: int| 0 <= r && #[trigger] sq(r) <= n - 1 < sq(r + 1);
        if n < sq(p + 1) {
            assert(0 <= p && sq(p) <= n < sq(p + 1));
        } else {
            assert(n == sq(p + 1));
            assert(sq(p + 1) < sq(p + 2)) by (nonlinear_arith)
                requires
                    0 <= p,
            ;
            assert(0 <= p + 1 && sq(p + 1) <= n < sq(p + 2));
        }
    }
}

/// The square-root floor is unique, so any witness equals `sqrt_floor`.
pub proof fn lemma_sqrt_floor_is(n: int, r: int)
    requires
        0 <= r,
        sq(r) <= n < sq(r + 1),
    ensures
        sqrt_floor(n) == r,
{
    lemma_sqrt_floor_exists(n);
    let c = choose|c: int| 0 <= c && #[trigger] sq(c) <= n < sq(c + 1);
    assert(sqrt_floor(n) == c);
    if c < r {
        assert(sq(c + 1) <= sq(r)) by (nonlinear_arith)
            requires
                0 <= c,
                c + 1 <= r,
        ;
    } else if r < c {
        assert(sq(r + 1) <= sq(c)) by (nonlinear_arith)
            requires
                0 <= r,
                r + 1 <= c,
        ;
    }
}

/// Integer square root: the floor of the real square root.
pub fn isqrt_u128(n: u128) -> (r: u64)
    ensures
        r == sqrt_floor(n as int),
        sq(r as int) <= n < sq(r as int + 1),
{
    if n == 0 {
        proof {
            lemma_sqrt_floor_is(n as int, 0);
        }
        return 0;
    }
    let mut lo: u128 = 0;
    let mut hi: u128 = 18446744073709551616;
    proof {
        assert(sq(hi as int) > n as int) by (nonlinear_arith)
            requires
                hi == 18446744073709551616u128,
                n <= u128::MAX,
        ;
    }
    while hi - lo > 1
        invariant
            0 <= lo < hi <= 18446744073709551616u128,
            sq(lo as int) <= n as int,
            sq(hi as int) > n as int,
        decreases hi - lo,
    {
        let mid: u128 = lo + (hi - lo) / 2;
        proof {
            assert(lo < mid < hi);
            assert(mid * mid <= u128::MAX) by (nonlinear_arith)
                requires
                    mid < 18446744073709551616u128,
            ;
        }
        if mid * mid <= n {
            lo = mid;
        } else {
            hi = mid;
        }
    }
    proof {
        assert(hi == lo + 1);
        assert(lo < 18446744073709551616u128);
        lemma_sqrt_floor_is(n as int, lo as int);
    }
    lo as u64
}

/// Exact squared distance between two 2D points, micrometer coordinates.
pub open spec fn dist2_squared_spec(x1: int, y1: int, x2: int, y2: int) -> int {
    sq(x2 - x1) + sq(y2 - y1)
}

/// Exact squared distance between two 3D points, micrometer coordinates.
pub open spec fn dist3_squared_spec(x1: int, y1: int, z1: int, x2: int, y2: int, z2: int) -> int {
    sq(x2 - x1) + sq(y2 - y1) + sq(z2 - z1)
}

/// Bound under which squared distances cannot overflow.
pub open spec fn coord_in_range(a: int) -> bool {
    -COORD_LIMIT_UM <= a <= COORD_LIMIT_UM
}

/// Returns the distance between two 2D points squared.
pub fn distance2_squared(x1: i64, y1: i64, x2: i64, y2: i64) -> (r: u128)
    requires
        coord_in_range(x1 as int),
        coord_in_range(y1 as int),
        coord_in_range(x2 as int),
        coord_in_range(y2 as int),
    ensures
        r == dist2_squared_spec(x1 as int, y1 as int, x2 as int, y2 as int),
{
    let dx: i128 = x2 as i128 - x1 as i128;
    let dy: i128 = y2 as i128 - y1 as i128;
    proof {
        assert(0 <= dx * dx <= COORD_LIMIT_UM as int * COORD_LIMIT_UM as int * 4)
            by (nonlinear_arith)
            requires
                -2 * COORD_LIMIT_UM as int <= dx <= 2 * COORD_LIMIT_UM as int,
        ;
        assert(0 <= dy * dy <= COORD_LIMIT_UM as int * COORD_LIMIT_UM as int * 4)
            by (nonlinear_arith)
            requires
                -2 * COORD_LIMIT_UM as int <= dy <= 2 * COORD_LIMIT_UM as int,
        ;
    }
    (dx * dx) as u128 + (dy * dy) as u128
}

/// Returns the distance between two 2D points, as the floor of the real
/// distance at micrometer resolution.
pub fn distance2(x1: i64, y1: i64, x2: i64, y2: i64) -> (r: u64)
    requires
        coord_in_range(x1 as int),
        coord_in_range(y1 as int),
        coord_in_range(x2 as int),
        coord_in_range(y2 as int),
    ensures
        r == sqrt_floor(dist2_squared_spec(x1 as int, y1 as int, x2 as int, y2 as int)),
{
    isqrt_u128(distance2_squared(x1, y1, x2, y2))
}

/// Returns the distance between two 3D points squared.
pub fn distance3_squared(x1: i64, y1: i64, z1: i64, x2: i64, y2: i64, z2: i64) -> (r: u128)
    requires
        coord_in_range(x1 as int),
        coord_in_range(y1 as int),
        coord_in_range(z1 as int),
        coord_in_range(x2 as int),
        coord_in_range(y2 as int),
        coord_in_range(z2 as int),
    ensures
        r == dist3_squared_spec(x1 as int, y1 as int, z1 as int, x2 as int, y2 as int, z2 as int),
{
    let dx: i128 = x2 as i128 - x1 as i128;
    let dy: i128 = y2 as i128 - y1 as i128;
    let dz: i128 = z2 as i128 - z1 as i128;
    proof {
        assert(0 <= dx * dx <= COORD_LIMIT_UM as int * COORD_LIMIT_UM as int * 4)
            by (nonlinear_arith)
            requires
                -2 * COORD_LIMIT_UM as int <= dx <= 2 * COORD_LIMIT_UM as int,
        ;
        assert(0 <= dy * dy <= COORD_LIMIT_UM as int * COORD_LIMIT_UM as int * 4)
            by (nonlinear_arith)
            requires
                -2 * COORD_LIMIT_UM as int <= dy <= 2 * COORD_LIMIT_UM as int,
        ;
        assert(0 <= dz * dz <= COORD_LIMIT_UM as int * COORD_LIMIT_UM as int * 4)
            by (nonlinear_arith)
            requires
                -2 * COORD_LIMIT_UM as int <= dz <= 2 * COORD_LIMIT_UM as int,
        ;
    }
    (dx * dx) as u128 + (dy * dy) as u128 + (dz * dz) as u128
}

/// Returns the distance between two 3D points, as the floor of the real
/// distance at micrometer resolution.
pub fn distance3(x1: i64, y1: i64, z1: i64, x2: i64, y2: i64, z2: i64) -> (r: u64)
    requires
        coord_in_range(x1 as int),
        coord_in_range(y1 as int),
        coord_in_range(z1 as int),
        coord_in_range(x2 as int),
        coord_in_range(y2 as int),
        coord_in_range(z2 as int),
    ensures
        r == sqrt_floor(
            dist3_squared_spec(x1 as int, y1 as int, z1 as int, x2 as int, y2 as int, z2 as int),
        ),
{
    isqrt_u128(distance3_squared(x1, y1, z1, x2, y2, z2))
}

} // verus!
