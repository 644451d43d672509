//! The Keplerian orbit propagator: orbital elements plus the orbited mass
//! give a planar position at any simulation time.  Mean anomaly comes from
//! the orbital period, eccentric anomaly from a bounded Newton iteration on
//! Kepler's equation, true anomaly from the half-angle arctangent form, and
//! the planar position from the conic radius.  All quantities are fixed
//! point: lengths in meters (positions out in micrometers), angles in
//! nanoradians, eccentricity scaled by 1e9.  The propagator is a pure,
//! stateless query path, independent of the gravity integrator.

use vstd::prelude::*;
use vstd::arithmetic::div_mod::{
    lemma_fundamental_div_mod, lemma_div_is_ordered, lemma_div_multiples_vanish,
    lemma_hoist_over_denominator,
};

verus! {

use crate::solarsystem::{mag, trunc_div, clamp_i, Mass, mu_milli, MASS_LIMIT};
use crate::common_math::{sq, sqrt_floor, isqrt_u128};
use crate::trig::{
    NANO, TWO_PI_NANO, sin_nano, cos_nano, atan2_nano, sqrt_nano, mulq, sin_fx, cos_fx,
    atan2_fx, sqrt_fx, mul_fx, tdiv_i64, tdiv_i128, lemma_div_le, lemma_trunc_nonneg,
};

/// Largest semi-major axis, in meters (the coordinate arena radius).
pub const SEMI_MAJOR_LIMIT_M: i64 = 4_500_000_000_000;

/// Largest simulation time the propagator accepts, in seconds.
pub const TIME_LIMIT_S: u64 = 1_000_000_000_000;

/// Largest mean anomaly magnitude, in nanoradians.
pub const MEAN_ANOM_LIMIT_NANO: i64 = 900_000_000_000_000_000;

/// Bound on the eccentric anomaly during the Newton iteration.
pub const ECC_ANOM_LIMIT_NANO: i64 = 1_000_000_000_000_000_000;

/// Convergence tolerance of the Newton iteration, in nanoradians (1e-6 rad).
pub const KEPLER_TOL_NANO: i64 = 1_000;

/// Upper bound on Newton iterations, guaranteeing termination even for
/// eccentricities near one.
pub const KEPLER_MAX_ITERS: u64 = 48;

/// The orbital elements of an entity: semi-major axis, eccentricity and the
/// three orientation angles.  Immutable per orbiting entity; consumed by the
/// propagator together with a simulation time and the orbited mass.
#[derive(Clone, Copy, Debug, PartialEq, Eq, Structural, Default)]
pub struct Orbit {
    /// Semi-major axis, in meters.
    pub semi_major_m: i64,
    /// Eccentricity, dimensionless, scaled by 1e9; closed ellipses have
    /// values in `[0, 1e9)`.
    pub eccentricity_nano: i64,
    /// Inclination, in nanoradians.
    pub inclination_nano: i64,
    /// Longitude of the ascending node, in nanoradians.
    pub lon_ascending_node_nano: i64,
    /// Argument of periapsis, in nanoradians.
    pub arg_periapsis_nano: i64,
}

/// Elements the propagator supports: a positive bounded semi-major axis and
/// an eccentricity below one.
pub open spec fn orbit_valid(o: Orbit) -> bool {
    &&& 0 < o.semi_major_m <= SEMI_MAJOR_LIMIT_M
    &&& 0 <= o.eccentricity_nano < NANO
}

/// Orbital period in whole seconds: `2*pi*sqrt(a^3 / (G*M))` at fixed-point
/// resolution, with the gravitational parameter in 1e-3 m^3/s^2.
pub open spec fn period_s_spec(a_m: int, mass: Mass) -> int {
    let ratio = (1000 * a_m * a_m * a_m) / mu_milli(mass);
    (TWO_PI_NANO * sqrt_floor(ratio)) / (NANO as int)
}

/// Mean anomaly at a simulation time, in nanoradians: `2*pi*t / T`.
pub open spec fn mean_anomaly_spec(a_m: int, mass: Mass, time_s: int) -> int {
    (TWO_PI_NANO * time_s) / period_s_spec(a_m, mass)
}

/// Residual of Kepler's equation at eccentric anomaly `big_e`:
/// `E - e*sin(E) - M`, in nanoradians.
pub open spec fn kepler_residual(e: int, m_anom: int, big_e: int) -> int {
    big_e - mulq(e, sin_nano(big_e)) - m_anom
}

/// Derivative scale of Kepler's equation: `1 - e*cos(E)`, scaled by 1e9.
pub open spec fn kepler_slope(e: int, big_e: int) -> int {
    NANO - mulq(e, cos_nano(big_e))
}

/// One Newton step on Kepler's equation, clamped to the representable range.
pub open spec fn newton_step(e: int, m_anom: int, big_e: int) -> int {
    clamp_i(
        big_e - trunc_div(kepler_residual(e, m_anom, big_e) * NANO, kepler_slope(e, big_e)),
        -ECC_ANOM_LIMIT_NANO as int,
        ECC_ANOM_LIMIT_NANO as int,
    )
}

/// Newton iteration with bounded fuel: stop when the residual is within the
/// tolerance or the fuel runs out, returning the best available estimate.
pub open spec fn kepler_iterate(e: int, m_anom: int, big_e: int, fuel: nat) -> int
    decreases fuel,
{
    if fuel == 0 || mag(kepler_residual(e, m_anom, big_e)) <= KEPLER_TOL_NANO {
        big_e
    } else {
        kepler_iterate(e, m_anom, newton_step(e, m_anom, big_e), (fuel - 1) as nat)
    }
}

/// Initial guess of the iteration: `E0 = M + e*cos(M)`.
pub open spec fn initial_guess(e: int, m_anom: int) -> int {
    m_anom + mulq(e, cos_nano(m_anom))
}

/// The eccentric anomaly the solver returns for a mean anomaly.
pub open spec fn eccentric_anomaly_spec(e: int, m_anom: int) -> int {
    kepler_iterate(e, m_anom, initial_guess(e, m_anom), KEPLER_MAX_ITERS as nat)
}

/// True anomaly from the eccentric anomaly, by the numerically stable
/// half-angle form: `2*atan2(sqrt(1+e)*sin(E/2), sqrt(1-e)*cos(E/2))`.
pub open spec fn true_anomaly_spec(e: int, big_e: int) -> int {
    let half = trunc_div(big_e, 2);
    let yy = mulq(sqrt_nano(NANO + e), sin_nano(half));
    let xx = mulq(sqrt_nano(NANO - e), cos_nano(half));
    2 * atan2_nano(yy, xx)
}

/// Conic radius at a true anomaly, in micrometers:
/// `a*(1 - e^2) / (1 + e*cos(nu))`.
pub open spec fn radius_um_spec(a_m: int, e: int, nu: int) -> int {
    let den = NANO + mulq(e, cos_nano(nu));
    ((a_m * 1_000_000) * (NANO * NANO - e * e)) / ((NANO as int) * den)
}

/// The propagator's full answer: planar position (micrometers) and true
/// anomaly (nanoradians) at a simulation time.
pub open spec fn orbit_position_spec(o: Orbit, time_s: int, mass: Mass) -> (int, int, int) {
    let m_anom = mean_anomaly_spec(o.semi_major_m as int, mass, time_s);
    let big_e = eccentric_anomaly_spec(o.eccentricity_nano as int, m_anom);
    let nu = true_anomaly_spec(o.eccentricity_nano as int, big_e);
    let r = radius_um_spec(o.semi_major_m as int, o.eccentricity_nano as int, nu);
    (trunc_div(r * cos_nano(nu), NANO as int), trunc_div(r * sin_nano(nu), NANO as int), nu)
}

/// All inputs the propagator accepts: valid elements, a positive bounded
/// orbited mass, a bounded time, a period of at least one second at the
/// fixed-point resolution, and a representable mean anomaly.
pub open spec fn propagation_valid(o: Orbit, time_s: int, mass: Mass) -> bool {
    &&& orbit_valid(o)
    &&& 0 < mass.value <= MASS_LIMIT
    &&& 0 <= time_s <= TIME_LIMIT_S
    &&& 1 <= period_s_spec(o.semi_major_m as int, mass)
    &&& mag(mean_anomaly_spec(o.semi_major_m as int, mass, time_s)) <= MEAN_ANOM_LIMIT_NANO
}

impl Orbit {
    pub fn new(
        semi_major_m: i64,
        eccentricity_nano: i64,
        inclination_nano: i64,
        lon_ascending_node_nano: i64,
        arg_periapsis_nano: i64,
    ) -> (r: Orbit)
        ensures
            r == (Orbit {
                semi_major_m,
                eccentricity_nano,
                inclination_nano,
                lon_ascending_node_nano,
                arg_periapsis_nano,
            }),
    {
        Orbit {
            semi_major_m,
            eccentricity_nano,
            inclination_nano,
            lon_ascending_node_nano,
            arg_periapsis_nano,
        }
    }

    /// Orbital period around the given mass, in whole seconds.
    pub fn period_s(&self, orbited_mass: &Mass) -> (r: u64)
        requires
            orbit_valid(*self),
            0 < orbited_mass.value <= MASS_LIMIT,
        ensures
            r == period_s_spec(self.semi_major_m as int, *orbited_mass),
    {
        let a: u128 = self.semi_major_m as u128;
        proof {
            assert(a * a <= 20_250_000_000_000_000_000_000_000u128 && (a * a) * a
                <= 91_125_000_000_000_000_000_000_000_000_000_000_000u128) by (nonlinear_arith)
                requires
                    0 < a <= 4_500_000_000_000u128,
            ;
        }
        let a3: u128 = a * a * a;
        let mu: u128 = 6_674_300u128 * (orbited_mass.value as u128);
        proof {
            assert(mu == mu_milli(*orbited_mass));
            assert(0 < mu <= 33_371_500_000_000_000_000_000_000u128) by (nonlinear_arith)
                requires
                    mu == 6_674_300u128 * (orbited_mass.value as u128),
                    0 < orbited_mass.value <= MASS_LIMIT,
                    MASS_LIMIT == 5_000_000_000_000_000_000u64,
            ;
        }
        let q: u128 = a3 / mu;
        let rr: u128 = a3 % mu;
        proof {
            lemma_fundamental_div_mod(a3 as int, mu as int);
            vstd::arithmetic::div_mod::lemma_div_is_ordered_by_denominator(
                a3 as int,
                6_674_300,
                mu as int,
            );
            lemma_div_is_ordered(
                a3 as int,
                91_125_000_000_000_000_000_000_000_000_000_000_000int,
                6_674_300,
            );
            assert(q <= 13_654_258_128_044_329_477_752_874_458_965u128);
            vstd::arithmetic::div_mod::lemma_mod_pos_bound(a3 as int, mu as int);
        }
        let ratio: u128 = q * 1000 + (rr * 1000) / mu;
        proof {
            lemma_hoist_over_denominator(rr as int * 1000, q as int * 1000, mu as nat);
            assert(rr as int * 1000 + (q as int * 1000) * (mu as int) == 1000 * a3 as int)
                by (nonlinear_arith)
                requires
                    a3 as int == mu as int * (q as int) + rr as int,
            ;
            assert(ratio == (1000 * a3 as int) / (mu as int));
            assert(1000 * a3 as int == 1000 * (self.semi_major_m as int) * (self.semi_major_m
                as int) * (self.semi_major_m as int)) by (nonlinear_arith)
                requires
                    a3 == (self.semi_major_m as int) * (self.semi_major_m as int) * (
                    self.semi_major_m as int),
            ;
            lemma_div_le(rr as int * 1000, mu as int);
        }
        proof {
            assert(rr * 1000 < mu * 1000) by (nonlinear_arith)
                requires
                    rr < mu,
            ;
            lemma_div_is_ordered(rr as int * 1000, mu as int * 1000, mu as int);
            lemma_div_multiples_vanish(1000, mu as int);
            assert((mu as int) * 1000 == 1000 * (mu as int)) by (nonlinear_arith);
            assert(ratio <= 13_654_258_128_044_329_477_752_875_458_965_000u128);
        }
        let sr: u64 = isqrt_u128(ratio);
        proof {
            assert(sq(sr as int) <= ratio as int);
            if sr > 400_000_000_000_000_000u64 {
                assert(sq(400_000_000_000_000_001int) <= sq(sr as int)) by (nonlinear_arith)
                    requires
                        400_000_000_000_000_001 <= sr as int,
                ;
                assert(sq(400_000_000_000_000_001int)
                    > 13_654_258_128_044_329_477_752_875_458_965_000int) by (nonlinear_arith);
            }
        }
        let t: u128 = ((TWO_PI_NANO as u128) * (sr as u128)) / (NANO as u128);
        proof {
            lemma_div_le(TWO_PI_NANO as int * sr as int, NANO as int);
            assert(TWO_PI_NANO as int * sr as int <= 6_283_185_307int * 400_000_000_000_000_000)
                by (nonlinear_arith)
                requires
                    sr <= 400_000_000_000_000_000u64,
            ;
            lemma_div_is_ordered(
                TWO_PI_NANO as int * sr as int,
                6_283_185_307int * 400_000_000_000_000_000,
                NANO as int,
            );
        }
        t as u64
    }

    /// Eccentric anomaly by bounded Newton iteration on Kepler's equation,
    /// from the initial guess `M + e*cos(M)`, stopping when the residual is
    /// within the tolerance or the iteration bound is reached.
    pub fn eccentric_anomaly(&self, m_anom: i64) -> (r: i64)
        requires
            orbit_valid(*self),
            mag(m_anom as int) <= MEAN_ANOM_LIMIT_NANO,
        ensures
            r == eccentric_anomaly_spec(self.eccentricity_nano as int, m_anom as int),
            mag(r as int) <= ECC_ANOM_LIMIT_NANO,
    {
        let e: i64 = self.eccentricity_nano;
        let c0: i64 = cos_fx(m_anom);
        let mut big_e: i64 = m_anom + mul_fx(e, c0);
        proof {
            assert(big_e == initial_guess(e as int, m_anom as int));
            assert(mag(big_e as int) <= ECC_ANOM_LIMIT_NANO);
        }
        let ghost target: int = eccentric_anomaly_spec(e as int, m_anom as int);
        let mut iters: u64 = 0;
        while iters < KEPLER_MAX_ITERS
            invariant
                0 <= e < NANO,
                mag(m_anom as int) <= MEAN_ANOM_LIMIT_NANO,
                iters <= KEPLER_MAX_ITERS,
                mag(big_e as int) <= ECC_ANOM_LIMIT_NANO,
                target == kepler_iterate(
                    e as int,
                    m_anom as int,
                    big_e as int,
                    (KEPLER_MAX_ITERS - iters) as nat,
                ),
            decreases KEPLER_MAX_ITERS - iters,
        {
            let s: i64 = sin_fx(big_e);
            let c: i64 = cos_fx(big_e);
            let es: i64 = mul_fx(e, s);
            let f: i64 = big_e - es - m_anom;
            proof {
                assert(f == kepler_residual(e as int, m_anom as int, big_e as int));
            }
            let fm: i64 = if f >= 0 {
                f
            } else {
                -f
            };
            if fm <= KEPLER_TOL_NANO {
                iters = KEPLER_MAX_ITERS;
            } else {
                let ec: i64 = mul_fx(e, c);
                let fp: i64 = NANO - ec;
                proof {
                    assert(fp == kepler_slope(e as int, big_e as int));
                    assert(1 <= fp <= 2 * NANO);
                }
                let num: i128 = (f as i128) * (NANO as i128);
                let step: i128 = tdiv_i128(num, fp as i128);
                let cand: i128 = (big_e as i128) - step;
                let clamped: i64 = if cand > ECC_ANOM_LIMIT_NANO as i128 {
                    ECC_ANOM_LIMIT_NANO
                } else if cand < -ECC_ANOM_LIMIT_NANO as i128 {
                    -ECC_ANOM_LIMIT_NANO
                } else {
                    cand as i64
                };
                proof {
                    assert(clamped == newton_step(e as int, m_anom as int, big_e as int));
                    assert(kepler_iterate(
                        e as int,
                        m_anom as int,
                        big_e as int,
                        (KEPLER_MAX_ITERS - iters) as nat,
                    ) == kepler_iterate(
                        e as int,
                        m_anom as int,
                        clamped as int,
                        (KEPLER_MAX_ITERS - iters - 1) as nat,
                    ));
                }
                big_e = clamped;
                iters = iters + 1;
            }
        }
        proof {
            assert(target == big_e);
        }
        big_e
    }

    /// Planar position and true anomaly at a simulation time: mean anomaly
    /// from the period, eccentric anomaly by Newton iteration, true anomaly
    /// by the half-angle form, and the conic radius projected onto the
    /// orbital plane.  Positions are in micrometers.
    #[verifier::rlimit(100)]
    pub fn position(&self, time_s: u64, orbited_mass: &Mass) -> (r: (i64, i64, i64))
        requires
            propagation_valid(*self, time_s as int, *orbited_mass),
        ensures
            r.0 == orbit_position_spec(*self, time_s as int, *orbited_mass).0,
            r.1 == orbit_position_spec(*self, time_s as int, *orbited_mass).1,
            r.2 == orbit_position_spec(*self, time_s as int, *orbited_mass).2,
    {
        let e: i64 = self.eccentricity_nano;
        let t_per: u64 = self.period_s(orbited_mass);
        let m_num: u128 = (TWO_PI_NANO as u128) * (time_s as u128);
        let m128: u128 = m_num / (t_per as u128);
        proof {
            assert(m_num == TWO_PI_NANO as int * time_s as int);
            lemma_trunc_nonneg(m_num as int, t_per as int);
            assert(m128 as int == mean_anomaly_spec(
                self.semi_major_m as int,
                *orbited_mass,
                time_s as int,
            ));
            assert(m128 <= MEAN_ANOM_LIMIT_NANO as u128);
        }
        let m_anom: i64 = m128 as i64;
        let big_e: i64 = self.eccentric_anomaly(m_anom);
        let half: i64 = tdiv_i64(big_e, 2);
        let s1: i64 = sqrt_fx(NANO + e);
        let s2: i64 = sqrt_fx(NANO - e);
        let sh: i64 = sin_fx(half);
        let ch: i64 = cos_fx(half);
        let yy: i64 = mul_fx(s1, sh);
        let xx: i64 = mul_fx(s2, ch);
        let nu: i64 = 2 * atan2_fx(yy, xx);
        proof {
            assert(nu == true_anomaly_spec(e as int, big_e as int));
            assert(mag(nu as int) <= 6_400_000_000);
        }
        let cnu: i64 = cos_fx(nu);
        let snu: i64 = sin_fx(nu);
        let ecn: i64 = mul_fx(e, cnu);
        let den: i64 = NANO + ecn;
        proof {
            assert(1 <= den <= 2 * NANO);
        }
        let a_um: u128 = (self.semi_major_m as u128) * 1_000_000;
        proof {
            assert((e as int) * (e as int) < 1_000_000_000_000_000_000int) by (nonlinear_arith)
                requires
                    0 <= e < 1_000_000_000i64,
            ;
        }
        let fac: u128 = ((NANO as u128) * (NANO as u128)) - ((e as u128) * (e as u128));
        proof {
            assert(fac == (NANO as int) * (NANO as int) - (e as int) * (e as int));
        }
        proof {
            assert(a_um <= 4_500_000_000_000_000_000u128) by (nonlinear_arith)
                requires
                    a_um == self.semi_major_m as int * 1_000_000,
                    0 < self.semi_major_m <= SEMI_MAJOR_LIMIT_M,
                    SEMI_MAJOR_LIMIT_M == 4_500_000_000_000i64,
            ;
            assert(a_um * fac <= 4_500_000_000_000_000_000_000_000_000_000_000_000u128)
                by (nonlinear_arith)
                requires
                    a_um <= 4_500_000_000_000_000_000u128,
                    fac <= 1_000_000_000_000_000_000u128,
            ;
        }
        let num: u128 = a_um * fac;
        let denom: u128 = (NANO as u128) * (den as u128);
        proof {
            lemma_radius_bound(a_um as int, e as int, den as int, fac as int);
            lemma_trunc_nonneg(num as int, denom as int);
        }
        let r_um128: u128 = num / denom;
        proof {
            assert(r_um128 as int == radius_um_spec(self.semi_major_m as int, e as int, nu as int));
            assert(r_um128 <= 9_000_000_000_000_000_000u128);
        }
        let r_um: i64 = r_um128 as i64;
        proof {
            assert(mag(r_um as int * cnu as int) <= 9_000_000_000_000_000_000_000_000_000int)
                by (nonlinear_arith)
                requires
                    0 <= r_um <= 9_000_000_000_000_000_000i64,
                    mag(cnu as int) <= NANO,
                    NANO == 1_000_000_000i64,
            ;
            assert(mag(r_um as int * snu as int) <= 9_000_000_000_000_000_000_000_000_000int)
                by (nonlinear_arith)
                requires
                    0 <= r_um <= 9_000_000_000_000_000_000i64,
                    mag(snu as int) <= NANO,
                    NANO == 1_000_000_000i64,
            ;
        }
        let px: i128 = (r_um as i128) * (cnu as i128);
        let py: i128 = (r_um as i128) * (snu as i128);
        let x: i128 = tdiv_i128(px, NANO as i128);
        let y: i128 = tdiv_i128(py, NANO as i128);
        proof {
            lemma_div_le(mag(px as int), NANO as int);
            lemma_div_is_ordered(mag(px as int), 9_000_000_000_000_000_000_000_000_000int,
                NANO as int);
            lemma_div_le(mag(py as int), NANO as int);
            lemma_div_is_ordered(mag(py as int), 9_000_000_000_000_000_000_000_000_000int,
                NANO as int);
        }
        (x as i64, y as i64, nu)
    }

    /// The propagator with its domain checked at run time: `Some` exactly on
    /// the inputs `position` accepts, `None` on every other input.
    pub fn position_checked(&self, time_s: u64, orbited_mass: &Mass) -> (r: Option<
        (i64, i64, i64),
    >)
        ensures
            r is Some <==> propagation_valid(*self, time_s as int, *orbited_mass),
            r matches Some(p) ==> p.0 == orbit_position_spec(
                *self,
                time_s as int,
                *orbited_mass,
            ).0 && p.1 == orbit_position_spec(*self, time_s as int, *orbited_mass).1 && p.2
                == orbit_position_spec(*self, time_s as int, *orbited_mass).2,
    {
        if !(self.semi_major_m > 0 && self.semi_major_m <= SEMI_MAJOR_LIMIT_M) {
            return None;
        }
        if !(self.eccentricity_nano >= 0 && self.eccentricity_nano < NANO) {
            return None;
        }
        if !(orbited_mass.value > 0 && orbited_mass.value <= MASS_LIMIT) {
            return None;
        }
        if time_s > TIME_LIMIT_S {
            return None;
        }
        let t_per: u64 = self.period_s(orbited_mass);
        if t_per < 1 {
            return None;
        }
        let m_num: u128 = (TWO_PI_NANO as u128) * (time_s as u128);
        let m128: u128 = m_num / (t_per as u128);
        proof {
            lemma_trunc_nonneg(m_num as int, t_per as int);
            assert(m128 as int == mean_anomaly_spec(
                self.semi_major_m as int,
                *orbited_mass,
                time_s as int,
            ));
        }
        if m128 > MEAN_ANOM_LIMIT_NANO as u128 {
            return None;
        }
        Some(self.position(time_s, orbited_mass))
    }
}

/// The conic radius is bounded by twice the semi-major axis: the numerator
/// `a*(1 - e^2)` carries the factor `1 - e`, which the denominator
/// `1 + e*cos(nu)` never falls below.
proof fn lemma_radius_bound(a_um: int, e: int, den: int, fac: int)
    requires
        0 < a_um <= 4_500_000_000_000_000_000,
        0 <= e < NANO,
        NANO - e <= den <= 2 * NANO,
        fac == NANO * NANO - e * e,
    ensures
        fac <= 1_000_000_000_000_000_000,
        a_um * fac <= (2 * a_um) * (NANO * den),
        (a_um * fac) / (NANO * den) <= 2 * a_um,
        0 < NANO * den,
{
    assert(0 <= e * e < NANO * NANO) by (nonlinear_arith)
        requires
            0 <= e < NANO,
    ;
    assert(a_um * fac <= (2 * a_um) * (NANO * den)) by (nonlinear_arith)
        requires
            0 < a_um,
            0 <= e < NANO,
            NANO - e <= den,
            fac == NANO * NANO - e * e,
            NANO == 1_000_000_000i64,
    ;
    assert(0 < NANO * den) by (nonlinear_arith)
        requires
            0 < den,
            0 < NANO,
    ;
    lemma_div_is_ordered(a_um * fac, (2 * a_um) * (NANO * den), NANO * den);
    lemma_div_multiples_vanish(2 * a_um, NANO * den);
    assert((2 * a_um) * (NANO * den) == (NANO * den) * (2 * a_um)) by (nonlinear_arith);
}

} // verus!
