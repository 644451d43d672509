//! Fixed-point trigonometry for the orbit propagator.  Angles and function
//! values are scaled by 1e9 ("nano" units: nanoradians in, sine and cosine
//! scaled by 1e9 out).  Every function is pinned to an exact integer
//! specification: argument reduction by quadrants of the circle, then a
//! truncated power series evaluated with staged fixed-point products.

use vstd::prelude::*;
use vstd::arithmetic::div_mod::{
    lemma_fundamental_div_mod, lemma_div_is_ordered, lemma_div_multiples_vanish,
};

verus! {

use crate::grid::div_floor_i64;
use crate::solarsystem::{mag, sgn, trunc_div, clamp_i, lemma_trunc_props};
use crate::common_math::{sq, sqrt_floor, lemma_sqrt_floor_exists, isqrt_u128};

/// The fixed-point scale: all angles and ratios are multiples of 1e-9.
pub const NANO: i64 = 1_000_000_000;

/// Pi, scaled by 1e9.
pub const PI_NANO: i64 = 3_141_592_654;

/// Pi/2, scaled by 1e9 (rounded to nearest).
pub const HALF_PI_NANO: i64 = 1_570_796_327;

/// Pi/4, scaled by 1e9.
pub const QUARTER_PI_NANO: i64 = 785_398_163;

/// 2*Pi, scaled by 1e9.
pub const TWO_PI_NANO: i64 = 6_283_185_307;

/// tan(Pi/8), scaled by 1e9: the argument-reduction threshold for arctan.
pub const TAN_PI_8_NANO: i64 = 414_213_562;

/// Largest angle magnitude the trig functions accept, in nano units (1e9 rad).
pub const ANGLE_LIMIT_NANO: i64 = 1_000_000_000_000_000_000;

/// `HALF_PI_NANO` overstates pi/2 * 1e9 by about 0.2051034; the reduction
/// adds back `k * 2_051_034 / 1e7` to keep the phase error below a few
/// hundred nano units over the whole accepted range.
pub const HALF_PI_CORR_NUM: i64 = 2_051_034;

/// Denominator of the phase correction.
pub const HALF_PI_CORR_DEN: i64 = 10_000_000;

/// Fixed-point product: `a * b / 1e9`, truncated toward zero.
pub open spec fn mulq(a: int, b: int) -> int {
    trunc_div(a * b, NANO as int)
}

/// Quotient `x / d` of non-negative integers never exceeds `x`.
pub(crate) proof fn lemma_div_le(x: int, d: int)
    requires
        0 <= x,
        1 <= d,
    ensures
        0 <= x / d <= x,
{
    vstd::arithmetic::div_mod::lemma_div_pos_is_pos(x, d);
    vstd::arithmetic::div_mod::lemma_div_is_ordered_by_denominator(x, 1, d);
    assert(x / 1 == x);
}

/// Truncating division of a non-negative value is plain floor division.
pub(crate) proof fn lemma_trunc_nonneg(a: int, d: int)
    requires
        0 <= a,
        0 < d,
    ensures
        trunc_div(a, d) == a / d,
{
    if a == 0 {
        vstd::arithmetic::div_mod::lemma_div_of0(d);
    }
}

/// Fixed-point multiply, exact against `mulq`; the magnitude of the result
/// is the scaled product of the magnitudes, so a factor bounded by the scale
/// can only shrink the other factor.
pub fn mul_fx(a: i64, b: i64) -> (r: i64)
    requires
        mag(a as int) <= 4_000_000_000_000,
        mag(b as int) <= 4_000_000_000_000,
    ensures
        r == mulq(a as int, b as int),
        mag(r as int) == (mag(a as int) * mag(b as int)) / (NANO as int),
        mag(b as int) <= NANO ==> mag(r as int) <= mag(a as int),
        mag(a as int) <= NANO ==> mag(r as int) <= mag(b as int),
        a >= 0 && b >= 0 ==> r >= 0,
{
    proof {
        assert(mag(a as int * b as int) <= 16_000_000_000_000_000_000_000_000)
            by (nonlinear_arith)
            requires
                mag(a as int) <= 4_000_000_000_000,
                mag(b as int) <= 4_000_000_000_000,
        ;
    }
    let p: i128 = a as i128 * b as i128;
    let pm: u128 = if p >= 0 {
        p as u128
    } else {
        (-p) as u128
    };
    let qm: u128 = pm / (NANO as u128);
    proof {
        lemma_trunc_props(p as int, NANO as int);
        assert(mag(p as int) == mag(a as int) * mag(b as int)) by (nonlinear_arith)
            requires
                p == a as int * b as int,
        ;
        assert(pm == mag(p as int));
        lemma_div_le(pm as int, NANO as int);
        if mag(b as int) <= NANO {
            assert(mag(a as int) * mag(b as int) <= mag(a as int) * (NANO as int))
                by (nonlinear_arith)
                requires
                    0 <= mag(a as int),
                    mag(b as int) <= NANO,
            ;
            lemma_div_is_ordered(
                mag(a as int) * mag(b as int),
                mag(a as int) * (NANO as int),
                NANO as int,
            );
            lemma_div_multiples_vanish(mag(a as int), NANO as int);
            assert(mag(a as int) * (NANO as int) == (NANO as int) * mag(a as int))
                by (nonlinear_arith);
        }
        if mag(a as int) <= NANO {
            assert(mag(a as int) * mag(b as int) <= mag(b as int) * (NANO as int))
                by (nonlinear_arith)
                requires
                    0 <= mag(b as int),
                    mag(a as int) <= NANO,
            ;
            lemma_div_is_ordered(
                mag(a as int) * mag(b as int),
                mag(b as int) * (NANO as int),
                NANO as int,
            );
            lemma_div_multiples_vanish(mag(b as int), NANO as int);
            assert(mag(b as int) * (NANO as int) == (NANO as int) * mag(b as int))
                by (nonlinear_arith);
        }
    }
    if p >= 0 {
        qm as i64
    } else {
        -(qm as i64)
    }
}

/// Division truncating toward zero, for a positive divisor.
pub fn tdiv_i64(a: i64, d: i64) -> (r: i64)
    requires
        0 < d,
        i64::MIN < a,
    ensures
        r == trunc_div(a as int, d as int),
        mag(r as int) == mag(a as int) / (d as int),
{
    proof {
        lemma_trunc_props(a as int, d as int);
    }
    if a >= 0 {
        ((a as u64) / (d as u64)) as i64
    } else {
        -((((-a) as u64) / (d as u64)) as i64)
    }
}

/// 128-bit division truncating toward zero, for a positive divisor.
pub fn tdiv_i128(a: i128, d: i128) -> (r: i128)
    requires
        0 < d,
        i128::MIN < a,
    ensures
        r == trunc_div(a as int, d as int),
        mag(r as int) == mag(a as int) / (d as int),
{
    proof {
        lemma_trunc_props(a as int, d as int);
    }
    if a >= 0 {
        ((a as u128) / (d as u128)) as i128
    } else {
        -((((-a) as u128) / (d as u128)) as i128)
    }
}

/// Sine power series on the reduced interval, through the ninth power:
/// `y * (1 - y^2/6 * (1 - y^2/20 * (1 - y^2/42 * (1 - y^2/72 * (1 - y^2/110)))))`
/// in fixed point, truncating at each stage.
pub open spec fn poly_sin(y: int) -> int {
    let y2 = trunc_div(y * y, NANO as int);
    let t5 = NANO - y2 / 110;
    let t4 = NANO - mulq(y2, t5) / 72;
    let t3 = NANO - mulq(y2, t4) / 42;
    let t2 = NANO - mulq(y2, t3) / 20;
    let t1 = NANO - mulq(y2, t2) / 6;
    mulq(y, t1)
}

/// Cosine power series on the reduced interval, through the tenth power:
/// `1 - y^2/2 * (1 - y^2/12 * (1 - y^2/30 * (1 - y^2/56 * (1 - y^2/90))))`.
pub open spec fn poly_cos(y: int) -> int {
    let y2 = trunc_div(y * y, NANO as int);
    let u4 = NANO - y2 / 90;
    let u3 = NANO - mulq(y2, u4) / 56;
    let u2 = NANO - mulq(y2, u3) / 30;
    let u1 = NANO - mulq(y2, u2) / 12;
    NANO - mulq(y2, u1) / 2
}

/// Number of quarter turns to subtract during argument reduction.
pub open spec fn reduce_k(x: int) -> int {
    (x + QUARTER_PI_NANO) / (HALF_PI_NANO as int)
}

/// Reduced argument: the remainder after removing `k` quarter turns, with
/// the phase correction for the rounding of `HALF_PI_NANO`.
pub open spec fn reduce_y(x: int) -> int {
    x - reduce_k(x) * HALF_PI_NANO + trunc_div(
        reduce_k(x) * HALF_PI_CORR_NUM,
        HALF_PI_CORR_DEN as int,
    )
}

/// Which quarter of the circle the argument fell in (0 to 3).
pub open spec fn reduce_quadrant(x: int) -> int {
    reduce_k(x) % 4
}

/// Fixed-point sine of an angle in nano radians, scaled by 1e9.
pub open spec fn sin_nano(x: int) -> int {
    let y = reduce_y(x);
    let m = reduce_quadrant(x);
    let s = if m == 0 {
        poly_sin(y)
    } else if m == 1 {
        poly_cos(y)
    } else if m == 2 {
        -poly_sin(y)
    } else {
        -poly_cos(y)
    };
    clamp_i(s, -NANO as int, NANO as int)
}

/// Fixed-point cosine of an angle in nano radians, scaled by 1e9.
pub open spec fn cos_nano(x: int) -> int {
    let y = reduce_y(x);
    let m = reduce_quadrant(x);
    let c = if m == 0 {
        poly_cos(y)
    } else if m == 1 {
        -poly_sin(y)
    } else if m == 2 {
        -poly_cos(y)
    } else {
        poly_sin(y)
    };
    clamp_i(c, -NANO as int, NANO as int)
}

/// Evaluate the sine series; the result keeps the sign of `y` and stays
/// within the reduced range.
fn poly_sin_fx(y: i64) -> (r: i64)
    requires
        mag(y as int) <= 950_000_000,
    ensures
        r == poly_sin(y as int),
        mag(r as int) <= 950_000_000,
{
    let y2: i64 = mul_fx(y, y);
    proof {
        assert(0 <= y as int * y as int && mag(y as int) * mag(y as int) <= 902_500_000_000_000_000
            && mag(y as int * y as int) == mag(y as int) * mag(y as int)) by (nonlinear_arith)
            requires
                mag(y as int) <= 950_000_000,
        ;
        lemma_trunc_nonneg(y as int * y as int, NANO as int);
        lemma_div_le(y as int * y as int, NANO as int);
        lemma_div_is_ordered(y as int * y as int, 902_500_000_000_000_000, NANO as int);
        assert(y2 == trunc_div(y as int * y as int, NANO as int));
        assert(0 <= y2 <= 950_000_000);
    }
    let t5: i64 = NANO - tdiv_i64(y2, 110);
    proof {
        lemma_div_le(y2 as int, 110);
        assert(t5 == NANO - (y2 as int) / 110);
        assert(0 <= t5 <= NANO);
    }
    let t4: i64 = NANO - tdiv_i64(mul_fx(y2, t5), 72);
    proof {
        lemma_div_le(mag(mulq(y2 as int, t5 as int)), 72);
        assert(0 <= t4 <= NANO);
        assert(t4 == NANO - mulq(y2 as int, t5 as int) / 72);
    }
    let t3: i64 = NANO - tdiv_i64(mul_fx(y2, t4), 42);
    proof {
        lemma_div_le(mag(mulq(y2 as int, t4 as int)), 42);
        assert(0 <= t3 <= NANO);
        assert(t3 == NANO - mulq(y2 as int, t4 as int) / 42);
    }
    let t2: i64 = NANO - tdiv_i64(mul_fx(y2, t3), 20);
    proof {
        lemma_div_le(mag(mulq(y2 as int, t3 as int)), 20);
        assert(0 <= t2 <= NANO);
        assert(t2 == NANO - mulq(y2 as int, t3 as int) / 20);
    }
    let t1: i64 = NANO - tdiv_i64(mul_fx(y2, t2), 6);
    proof {
        lemma_div_le(mag(mulq(y2 as int, t2 as int)), 6);
        assert(0 <= t1 <= NANO);
        assert(t1 == NANO - mulq(y2 as int, t2 as int) / 6);
    }
    let s: i64 = mul_fx(y, t1);
    s
}

/// Evaluate the cosine series; the result is within the unit scale.
fn poly_cos_fx(y: i64) -> (r: i64)
    requires
        mag(y as int) <= 950_000_000,
    ensures
        r == poly_cos(y as int),
        0 <= r <= NANO,
{
    let y2: i64 = mul_fx(y, y);
    proof {
        assert(0 <= y as int * y as int && mag(y as int) * mag(y as int) <= 902_500_000_000_000_000
            && mag(y as int * y as int) == mag(y as int) * mag(y as int)) by (nonlinear_arith)
            requires
                mag(y as int) <= 950_000_000,
        ;
        lemma_trunc_nonneg(y as int * y as int, NANO as int);
        lemma_div_le(y as int * y as int, NANO as int);
        lemma_div_is_ordered(y as int * y as int, 902_500_000_000_000_000, NANO as int);
        assert(y2 == trunc_div(y as int * y as int, NANO as int));
        assert(0 <= y2 <= 950_000_000);
    }
    let u4: i64 = NANO - tdiv_i64(y2, 90);
    proof {
        lemma_div_le(y2 as int, 90);
        assert(0 <= u4 <= NANO);
        assert(u4 == NANO - (y2 as int) / 90);
    }
    let u3: i64 = NANO - tdiv_i64(mul_fx(y2, u4), 56);
    proof {
        lemma_div_le(mag(mulq(y2 as int, u4 as int)), 56);
        assert(0 <= u3 <= NANO);
        assert(u3 == NANO - mulq(y2 as int, u4 as int) / 56);
    }
    let u2: i64 = NANO - tdiv_i64(mul_fx(y2, u3), 30);
    proof {
        lemma_div_le(mag(mulq(y2 as int, u3 as int)), 30);
        assert(0 <= u2 <= NANO);
        assert(u2 == NANO - mulq(y2 as int, u3 as int) / 30);
    }
    let u1: i64 = NANO - tdiv_i64(mul_fx(y2, u2), 12);
    proof {
        lemma_div_le(mag(mulq(y2 as int, u2 as int)), 12);
        assert(0 <= u1 <= NANO);
        assert(u1 == NANO - mulq(y2 as int, u2 as int) / 12);
    }
    let c: i64 = NANO - tdiv_i64(mul_fx(y2, u1), 2);
    proof {
        lemma_div_le(mag(mulq(y2 as int, u1 as int)), 2);
        assert(0 <= c <= NANO);
        assert(c == NANO - mulq(y2 as int, u1 as int) / 2);
    }
    c
}

/// Reduce an angle to a quarter-turn remainder and note which quadrant it
/// fell in.
fn reduce_fx(x: i64) -> (r: (i64, i64))
    requires
        mag(x as int) <= ANGLE_LIMIT_NANO,
    ensures
        r.0 == reduce_y(x as int),
        r.1 == reduce_quadrant(x as int),
        mag(r.0 as int) <= 950_000_000,
        0 <= r.1 < 4,
{
    let k: i64 = div_floor_i64(x + QUARTER_PI_NANO, HALF_PI_NANO);
    proof {
        lemma_fundamental_div_mod(x as int + QUARTER_PI_NANO, HALF_PI_NANO as int);
        assert(mag(k as int) <= 700_000_000) by (nonlinear_arith)
            requires
                x as int + QUARTER_PI_NANO == (HALF_PI_NANO as int) * (k as int) + ((x as int
                    + QUARTER_PI_NANO) % (HALF_PI_NANO as int)),
                0 <= (x as int + QUARTER_PI_NANO) % (HALF_PI_NANO as int) < HALF_PI_NANO,
                mag(x as int) <= ANGLE_LIMIT_NANO,
                HALF_PI_NANO == 1_570_796_327i64,
                QUARTER_PI_NANO == 785_398_163i64,
                ANGLE_LIMIT_NANO == 1_000_000_000_000_000_000i64,
        ;
    }
    let y_raw: i64 = x - k * HALF_PI_NANO;
    proof {
        assert(y_raw == (x as int + QUARTER_PI_NANO) % (HALF_PI_NANO as int)
            - QUARTER_PI_NANO);
        assert(-QUARTER_PI_NANO <= y_raw as int <= HALF_PI_NANO - QUARTER_PI_NANO);
    }
    let corr: i64 = tdiv_i64(k * HALF_PI_CORR_NUM, HALF_PI_CORR_DEN);
    proof {
        assert(mag(k as int * HALF_PI_CORR_NUM) <= 1_435_723_800_000_000) by (nonlinear_arith)
            requires
                mag(k as int) <= 700_000_000,
                HALF_PI_CORR_NUM == 2_051_034i64,
        ;
        lemma_div_le(mag(k as int * HALF_PI_CORR_NUM), HALF_PI_CORR_DEN as int);
        assert(mag(corr as int) <= 143_572_380);
    }
    let y: i64 = y_raw + corr;
    let mfloor: i64 = div_floor_i64(k, 4);
    let m: i64 = k - 4 * mfloor;
    proof {
        lemma_fundamental_div_mod(k as int, 4);
        assert(m == (k as int) % 4);
    }
    (y, m)
}

/// Fixed-point sine: nanoradians in, sine scaled by 1e9 out.
pub fn sin_fx(x: i64) -> (r: i64)
    requires
        mag(x as int) <= ANGLE_LIMIT_NANO,
    ensures
        r == sin_nano(x as int),
        mag(r as int) <= NANO,
{
    let (y, m) = reduce_fx(x);
    let s: i64 = if m == 0 {
        poly_sin_fx(y)
    } else if m == 1 {
        poly_cos_fx(y)
    } else if m == 2 {
        -poly_sin_fx(y)
    } else {
        -poly_cos_fx(y)
    };
    s
}

/// Fixed-point cosine: nanoradians in, cosine scaled by 1e9 out.
pub fn cos_fx(x: i64) -> (r: i64)
    requires
        mag(x as int) <= ANGLE_LIMIT_NANO,
    ensures
        r == cos_nano(x as int),
        mag(r as int) <= NANO,
{
    let (y, m) = reduce_fx(x);
    let c: i64 = if m == 0 {
        poly_cos_fx(y)
    } else if m == 1 {
        -poly_sin_fx(y)
    } else if m == 2 {
        -poly_cos_fx(y)
    } else {
        poly_sin_fx(y)
    };
    c
}

/// Square root of a value scaled by 1e9, result scaled by 1e9:
/// `sqrt_floor(v * 1e9)`.
pub open spec fn sqrt_nano(v: int) -> int {
    sqrt_floor(v * NANO)
}

/// Fixed-point square root for unit-scale values.
pub fn sqrt_fx(v: i64) -> (r: i64)
    requires
        0 <= v <= 4_000_000_000,
    ensures
        r == sqrt_nano(v as int),
        0 <= r <= 2_000_000_000,
{
    let n: u128 = (v as u128) * (NANO as u128);
    proof {
        assert(n <= 4_000_000_000_000_000_000u128) by (nonlinear_arith)
            requires
                n == v as int * NANO,
                0 <= v <= 4_000_000_000i64,
                NANO == 1_000_000_000i64,
        ;
    }
    let s: u64 = isqrt_u128(n);
    proof {
        assert(sq(s as int) <= n as int);
        assert(n as int <= sq(2_000_000_000int)) by (nonlinear_arith)
            requires
                n <= 4_000_000_000_000_000_000u128,
        ;
        if s > 2_000_000_000 {
            assert(sq(2_000_000_001int) <= sq(s as int)) by (nonlinear_arith)
                requires
                    2_000_000_001 <= s as int,
            ;
        }
    }
    s as i64
}

/// Arctangent power series on `[-tan(pi/8), tan(pi/8)]`, through the 13th
/// power, evaluated in fixed point by a staged Horner scheme.
pub open spec fn atan_poly(w: int) -> int {
    let w2 = trunc_div(w * w, NANO as int);
    let h5 = 90_909_091 - mulq(w2, 76_923_077);
    let h4 = 111_111_111 - mulq(w2, h5);
    let h3 = 142_857_143 - mulq(w2, h4);
    let h2 = 200_000_000 - mulq(w2, h3);
    let h1 = 333_333_333 - mulq(w2, h2);
    mulq(w, NANO - mulq(w2, h1))
}

/// Arctangent of a non-negative unit-scale ratio, with one fold at
/// tan(pi/8): `atan(z) = pi/4 + atan((z - 1) / (z + 1))` above the
/// threshold.
pub open spec fn atan_pos(z: int) -> int {
    if z > TAN_PI_8_NANO {
        QUARTER_PI_NANO + atan_poly(trunc_div((z - NANO) * NANO, z + NANO))
    } else {
        atan_poly(z)
    }
}

/// Four-quadrant arctangent on unit-scale coordinates, in nanoradians in
/// `(-pi, pi]` at the fixed-point resolution.
pub open spec fn atan2_nano(y: int, x: int) -> int {
    if y == 0 {
        if x >= 0 {
            0
        } else {
            PI_NANO as int
        }
    } else if mag(y) <= mag(x) {
        let base = atan_pos(trunc_div(mag(y) * NANO, mag(x)));
        sgn(y) * (if x >= 0 {
            base
        } else {
            PI_NANO - base
        })
    } else {
        let base = atan_pos(trunc_div(mag(x) * NANO, mag(y)));
        sgn(y) * (if x >= 0 {
            HALF_PI_NANO - base
        } else {
            HALF_PI_NANO + base
        })
    }
}

/// Evaluate the arctangent series; the result keeps the sign of `w`.
fn atan_poly_fx(w: i64) -> (r: i64)
    requires
        mag(w as int) <= 450_000_000,
    ensures
        r == atan_poly(w as int),
        mag(r as int) <= 450_000_000,
        w >= 0 ==> r >= 0,
        w <= 0 ==> r <= 0,
{
    let w2: i64 = mul_fx(w, w);
    proof {
        assert(0 <= w as int * w as int && mag(w as int) * mag(w as int) <= 202_500_000_000_000_000
            && mag(w as int * w as int) == mag(w as int) * mag(w as int)) by (nonlinear_arith)
            requires
                mag(w as int) <= 450_000_000,
        ;
        lemma_trunc_nonneg(w as int * w as int, NANO as int);
        lemma_div_le(w as int * w as int, NANO as int);
        lemma_div_is_ordered(w as int * w as int, 202_500_000_000_000_000, NANO as int);
        assert(0 <= w2 <= 202_500_000);
        assert(w2 == trunc_div(w as int * w as int, NANO as int));
    }
    let m5: i64 = mul_fx(w2, 76_923_077);
    proof {
        assert(w2 as int * 76_923_077 <= 202_500_000int * 76_923_077) by (nonlinear_arith)
            requires
                0 <= w2 <= 202_500_000,
        ;
        lemma_div_le(mag(w2 as int * 76_923_077), NANO as int);
        lemma_div_is_ordered(w2 as int * 76_923_077, 202_500_000int * 76_923_077, NANO as int);
        assert(0 <= m5 <= 90_909_091);
    }
    let h5: i64 = 90_909_091 - m5;
    let m4: i64 = mul_fx(w2, h5);
    proof {
        assert(w2 as int * h5 as int <= 202_500_000int * 90_909_091) by (nonlinear_arith)
            requires
                0 <= w2 <= 202_500_000,
                0 <= h5 <= 90_909_091,
        ;
        lemma_div_is_ordered(w2 as int * h5 as int, 202_500_000int * 90_909_091, NANO as int);
        assert(0 <= m4 <= 111_111_111);
    }
    let h4: i64 = 111_111_111 - m4;
    let m3: i64 = mul_fx(w2, h4);
    proof {
        assert(w2 as int * h4 as int <= 202_500_000int * 111_111_111) by (nonlinear_arith)
            requires
                0 <= w2 <= 202_500_000,
                0 <= h4 <= 111_111_111,
        ;
        lemma_div_is_ordered(w2 as int * h4 as int, 202_500_000int * 111_111_111, NANO as int);
        assert(0 <= m3 <= 142_857_143);
    }
    let h3: i64 = 142_857_143 - m3;
    let m2: i64 = mul_fx(w2, h3);
    proof {
        assert(w2 as int * h3 as int <= 202_500_000int * 142_857_143) by (nonlinear_arith)
            requires
                0 <= w2 <= 202_500_000,
                0 <= h3 <= 142_857_143,
        ;
        lemma_div_is_ordered(w2 as int * h3 as int, 202_500_000int * 142_857_143, NANO as int);
        assert(0 <= m2 <= 200_000_000);
    }
    let h2: i64 = 200_000_000 - m2;
    let m1: i64 = mul_fx(w2, h2);
    proof {
        assert(w2 as int * h2 as int <= 202_500_000int * 200_000_000) by (nonlinear_arith)
            requires
                0 <= w2 <= 202_500_000,
                0 <= h2 <= 200_000_000,
        ;
        lemma_div_is_ordered(w2 as int * h2 as int, 202_500_000int * 200_000_000, NANO as int);
        assert(0 <= m1 <= 333_333_333);
    }
    let h1: i64 = 333_333_333 - m1;
    let m0: i64 = mul_fx(w2, h1);
    proof {
        assert(w2 as int * h1 as int <= 202_500_000int * 333_333_333) by (nonlinear_arith)
            requires
                0 <= w2 <= 202_500_000,
                0 <= h1 <= 333_333_333,
        ;
        lemma_div_is_ordered(w2 as int * h1 as int, 202_500_000int * 333_333_333, NANO as int);
        assert(0 <= m0 <= 100_000_000);
    }
    let f: i64 = NANO - m0;
    let r: i64 = mul_fx(w, f);
    proof {
        assert(0 <= f <= NANO);
        if w >= 0 {
            assert(w as int * f as int >= 0) by (nonlinear_arith)
                requires
                    0 <= w,
                    0 <= f,
            ;
        } else {
            assert(w as int * f as int <= 0) by (nonlinear_arith)
                requires
                    w <= 0,
                    0 <= f,
            ;
        }
    }
    r
}

/// Arctangent of a non-negative unit-scale ratio.
fn atan_pos_fx(z: i64) -> (r: i64)
    requires
        0 <= z <= NANO,
    ensures
        r == atan_pos(z as int),
        0 <= r <= 1_300_000_000,
{
    if z > TAN_PI_8_NANO {
        let num: i128 = (z - NANO) as i128 * (NANO as i128);
        let den: i128 = (z + NANO) as i128;
        let w128: i128 = tdiv_i128(num, den);
        proof {
            assert(mag(num as int) <= 450_000_000 * den) by (nonlinear_arith)
                requires
                    num == (z as int - NANO) * NANO,
                    den == z as int + NANO,
                    TAN_PI_8_NANO < z <= NANO,
                    NANO == 1_000_000_000i64,
                    TAN_PI_8_NANO == 414_213_562i64,
            ;
            lemma_div_is_ordered(mag(num as int), 450_000_000 * den as int, den as int);
            lemma_div_multiples_vanish(450_000_000, den as int);
            assert(450_000_000 * den as int == den as int * 450_000_000) by (nonlinear_arith);
            assert(mag(w128 as int) <= 450_000_000);
        }
        let w: i64 = w128 as i64;
        let p: i64 = atan_poly_fx(w);
        QUARTER_PI_NANO + p
    } else {
        atan_poly_fx(z)
    }
}

/// Four-quadrant arctangent on unit-scale fixed-point coordinates.
pub fn atan2_fx(y: i64, x: i64) -> (r: i64)
    requires
        mag(y as int) <= 2_000_000_000,
        mag(x as int) <= 2_000_000_000,
    ensures
        r == atan2_nano(y as int, x as int),
        mag(r as int) <= 3_200_000_000,
{
    if y == 0 {
        if x >= 0 {
            0
        } else {
            PI_NANO
        }
    } else {
        let ym: i64 = if y >= 0 {
            y
        } else {
            -y
        };
        let xm: i64 = if x >= 0 {
            x
        } else {
            -x
        };
        if ym <= xm {
            let num: i128 = ym as i128 * (NANO as i128);
            let q: i128 = num / (xm as i128);
            proof {
                assert(ym as int * NANO <= NANO * xm as int) by (nonlinear_arith)
                    requires
                        0 <= ym <= xm,
                        0 < NANO,
                ;
                lemma_div_is_ordered(ym as int * NANO, (NANO as int) * xm as int, xm as int);
                lemma_div_multiples_vanish(NANO as int, xm as int);
                assert((NANO as int) * (xm as int) == (xm as int) * (NANO as int))
                    by (nonlinear_arith);
                assert(0 <= q <= NANO);
                lemma_trunc_nonneg(ym as int * NANO, xm as int);
                assert(q == trunc_div(mag(y as int) * NANO, mag(x as int)));
            }
            let base: i64 = atan_pos_fx(q as i64);
            let a: i64 = if x >= 0 {
                base
            } else {
                PI_NANO - base
            };
            if y >= 0 {
                a
            } else {
                -a
            }
        } else {
            let num: i128 = xm as i128 * (NANO as i128);
            let q: i128 = num / (ym as i128);
            proof {
                assert(xm as int * NANO <= NANO * ym as int) by (nonlinear_arith)
                    requires
                        0 <= xm <= ym,
                        0 < NANO,
                ;
                lemma_div_is_ordered(xm as int * NANO, (NANO as int) * ym as int, ym as int);
                lemma_div_multiples_vanish(NANO as int, ym as int);
                assert((NANO as int) * (ym as int) == (ym as int) * (NANO as int))
                    by (nonlinear_arith);
                assert(0 <= q <= NANO);
                lemma_trunc_nonneg(xm as int * NANO, ym as int);
                assert(q == trunc_div(mag(x as int) * NANO, mag(y as int)));
            }
            let base: i64 = atan_pos_fx(q as i64);
            let inner: i64 = if x >= 0 {
                HALF_PI_NANO - base
            } else {
                HALF_PI_NANO + base
            };
            if y >= 0 {
                inner
            } else {
                -inner
            }
        }
    }
}

} // verus!
