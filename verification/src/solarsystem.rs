//! The body registry and the gravity integrator.
//!
//! Each tick accumulates pairwise gravitational accelerations over a single
//! snapshot of the body set and folds them into the velocities; a second pass
//! applies the velocities to the grid-cell positions and rebases them.  All
//! arithmetic is fixed point: masses count quanta of 1e14 kg, positions are
//! micrometers, velocities micrometers per second, and accelerations
//! micrometers per second squared.  Every update is pinned to an exact
//! integer formula, so the laws of the force model (symmetry, the
//! zero-distance guard, the gravity-exempt asymmetry) are proved rather than
//! sampled.

use vstd::prelude::*;
use vstd::arithmetic::div_mod::{
    lemma_fundamental_div_mod, lemma_div_is_ordered, lemma_div_is_ordered_by_denominator,
    lemma_div_multiples_vanish, lemma_hoist_over_denominator, lemma_div_denominator,
};

verus! {

use crate::grid::{
    Vec3i, GridCell, axis_abs, axis_in_range, offset_canonical, grid_cell_of, local_offset_of,
    to_grid_axis, CELL_EDGE_UM, COORD_LIMIT_UM, HALF_CELL_UM,
};
use crate::common_math::{sq, sqrt_floor, lemma_sqrt_floor_exists, isqrt_u128};

/// Kilograms per mass quantum: masses are stored in units of 1e14 kg.
pub const MASS_QUANTUM_KG: u64 = 100_000_000_000_000;

/// Largest admissible mass, in quanta (5e32 kg, a few hundred solar masses).
pub const MASS_LIMIT: u64 = 5_000_000_000_000_000_000;

/// Gravitational parameter of one mass quantum: G * 1e14 kg, counted in
/// units of 1e-3 m^3/s^2.  Exactly 6.67430e-11 * 1e14 * 1e3.
pub const MU_MILLI_PER_QUANTUM: u64 = 6_674_300;

/// Largest gravitational parameter: `MU_MILLI_PER_QUANTUM * MASS_LIMIT`.
pub const MU_LIMIT: u128 = 33_371_500_000_000_000_000_000_000;

/// Largest center-of-mass offset on one axis, in micrometers (1e6 m).
pub const CENTER_LIMIT_UM: i64 = 1_000_000_000_000;

/// Largest velocity magnitude on one axis, in micrometers per second.
pub const VEL_LIMIT_UM_S: i64 = 1_000_000_000_000_000_000;

/// Largest effective tick duration, in simulated microseconds.
pub const EFF_LIMIT_US: u64 = 1_000_000_000_000;

/// Largest number of bodies one registry admits.
pub const BODY_LIMIT: usize = 65536;

/// Micrometers per meter.
pub const UM_PER_M: u64 = 1_000_000;

/// Largest center-of-mass separation on one axis, in micrometers.
pub const REL_SPAN_LIMIT_UM: i64 = 9_010_000_000_000_000_000;

/// Largest center-of-mass separation on one axis, in meters.
pub const REL_SPAN_LIMIT_M: u64 = 9_010_000_000_000;

/// Largest admissible squared distance, in square meters.
pub const D2_LIMIT_M2: u128 = 300_000_000_000_000_000_000_000_000;

/// Saturation bound for one velocity change, in micrometers per second.
/// It exceeds twice the velocity limit, so saturating there never changes
/// the clamped velocity that comes out of a tick.
pub const DV_SAT_UM_S: u128 = 4_000_000_000_000_000_000;

/// Magnitude of an integer.
pub open spec fn mag(a: int) -> int {
    if a >= 0 {
        a
    } else {
        -a
    }
}

/// Sign of an integer: -1, 0 or 1.
pub open spec fn sgn(a: int) -> int {
    if a > 0 {
        1
    } else if a < 0 {
        -1
    } else {
        0
    }
}

/// Division truncating toward zero, for a positive divisor.
pub open spec fn trunc_div(a: int, d: int) -> int {
    sgn(a) * (mag(a) / d)
}

/// Clamp `a` into `[lo, hi]`.
pub open spec fn clamp_i(a: int, lo: int, hi: int) -> int {
    if a < lo {
        lo
    } else if a > hi {
        hi
    } else {
        a
    }
}

/// Component `k` (0, 1 or 2) of a vector.
pub open spec fn axis(v: Vec3i, k: int) -> int {
    if k == 0 {
        v.x as int
    } else if k == 1 {
        v.y as int
    } else {
        v.z as int
    }
}

/// Component `k` (0, 1 or 2) of a grid cell index.
pub open spec fn cell_axis(c: GridCell, k: int) -> int {
    if k == 0 {
        c.x as int
    } else if k == 1 {
        c.y as int
    } else {
        c.z as int
    }
}

/// Tag for a body that must not act as a gravity source.  Such a body still
/// receives acceleration from every massive body but contributes none, an
/// intentional asymmetry used for debris and other negligible masses.
#[derive(Clone, Copy, Debug, PartialEq, Eq, Structural)]
pub struct MassNoEffect;

/// Tag for the central body of a scene, the one whose mass an orbit
/// propagator takes as the orbited mass.
#[derive(Clone, Copy, Debug, PartialEq, Eq, Structural)]
pub struct Sun;

/// Human-readable label of a body.
#[derive(Clone, Debug, PartialEq, Eq, Hash, PartialOrd, Ord)]
pub struct Name(pub String);

/// A mass together with its center-of-mass offset from the body origin.
#[derive(Clone, Copy, Debug, PartialEq, Eq, Structural)]
pub struct Mass {
    /// The mass of the object, in quanta of 1e14 kg.
    pub value: u64,
    /// The center of mass of the object relative to the object's origin,
    /// in micrometers.
    pub center: Vec3i,
}

/// A velocity vector in micrometers per second.
#[derive(Clone, Copy, Debug, PartialEq, Eq, Structural)]
pub struct Velocity {
    pub velocity: Vec3i,
}

/// Per-tick time input: the raw elapsed tick duration and the simulation
/// time-scale factor that multiplies it.  Both passes of the integrator use
/// the same product of the two.
#[derive(Clone, Copy, Debug, PartialEq, Eq, Structural)]
pub struct SimulationClock {
    /// Elapsed real duration of the tick, in microseconds.
    pub elapsed_us: u64,
    /// Dimensionless simulation time-scale factor.
    pub scale: u32,
}

/// A per-axis acceleration, in micrometers per second squared.  Wider than
/// the vector type because a near-coincident pair of heavy bodies can exceed
/// the 64-bit range before the velocity clamp applies.
#[derive(Clone, Copy, Debug, PartialEq, Eq, Structural)]
pub struct Accel3 {
    pub x: i128,
    pub y: i128,
    pub z: i128,
}

/// Effective simulated duration of a tick, in microseconds.
pub open spec fn clock_eff(c: SimulationClock) -> int {
    c.elapsed_us * c.scale
}

/// A clock is well formed when its effective duration is representable.
pub open spec fn clock_wf(c: SimulationClock) -> bool {
    clock_eff(c) <= EFF_LIMIT_US
}

impl SimulationClock {
    pub fn new(elapsed_us: u64, scale: u32) -> (r: SimulationClock)
        ensures
            r == (SimulationClock { elapsed_us, scale }),
    {
        SimulationClock { elapsed_us, scale }
    }

    /// The elapsed tick duration multiplied by the time-scale factor.
    pub fn effective_us(&self) -> (r: u64)
        requires
            clock_wf(*self),
        ensures
            r == clock_eff(*self),
    {
        (self.elapsed_us as u128 * self.scale as u128) as u64
    }
}

/// A mass is valid when its value and center offset are within bounds.
pub open spec fn mass_valid(m: Mass) -> bool {
    &&& m.value <= MASS_LIMIT
    &&& mag(m.center.x as int) <= CENTER_LIMIT_UM
    &&& mag(m.center.y as int) <= CENTER_LIMIT_UM
    &&& mag(m.center.z as int) <= CENTER_LIMIT_UM
}

/// Gravitational parameter of a mass, in units of 1e-3 m^3/s^2.  Exact: no
/// rounding is involved in deriving it from the stored mass.
pub open spec fn mu_milli(m: Mass) -> int {
    MU_MILLI_PER_QUANTUM * m.value
}

impl Mass {
    pub fn new(mass: u64) -> (r: Mass)
        ensures
            r.value == mass,
            r.center == (Vec3i { x: 0i64, y: 0i64, z: 0i64 }),
    {
        Mass { value: mass, center: Vec3i { x: 0, y: 0, z: 0 } }
    }

    pub fn zero() -> (r: Mass)
        ensures
            r.value == 0,
            r.center == (Vec3i { x: 0i64, y: 0i64, z: 0i64 }),
    {
        Mass { value: 0, center: Vec3i { x: 0, y: 0, z: 0 } }
    }
}

/// Separation on axis `k` between the center of mass of `(mo, po)` and the
/// center of mass of `(ms, ps)`, in micrometers; positions are relative to a
/// shared origin.
pub open spec fn rel_axis_um(ms: Mass, mo: Mass, ps: Vec3i, po: Vec3i, k: int) -> int {
    (axis(po, k) + axis(mo.center, k)) - (axis(ps, k) + axis(ms.center, k))
}

/// The same separation truncated to whole meters (toward zero), the
/// resolution at which the force formula operates.
pub open spec fn rel_axis_m(ms: Mass, mo: Mass, ps: Vec3i, po: Vec3i, k: int) -> int {
    trunc_div(rel_axis_um(ms, mo, ps, po, k), UM_PER_M as int)
}

/// Squared center-of-mass distance in square meters.
pub open spec fn rel_d2_m(ms: Mass, mo: Mass, ps: Vec3i, po: Vec3i) -> int {
    sq(rel_axis_m(ms, mo, ps, po, 0)) + sq(rel_axis_m(ms, mo, ps, po, 1)) + sq(
        rel_axis_m(ms, mo, ps, po, 2),
    )
}

/// Magnitude of one axis of the ideal acceleration, floored once at the
/// output resolution: `(1000 * mu * |d_k|) / (d2 * dist)` micrometers per
/// second squared, with `mu` in 1e-3 m^3/s^2 and lengths in meters.
pub open spec fn accel_mag(mu: int, dk: int, d2: int, dist: int) -> int {
    (1000 * mu * mag(dk)) / (d2 * dist)
}

/// Acceleration that the body `(ms, ps)` experiences from the source
/// `(mo, po)`, on axis `k`.  Directed from the body toward the source; zero
/// when the centers of mass coincide at meter resolution, which covers the
/// coincident-body guard.  The receiver's own mass cancels out of
/// `a = F / m`, so only the source mass enters.
pub open spec fn accel_from_positions(ms: Mass, mo: Mass, ps: Vec3i, po: Vec3i, k: int) -> int {
    let dk = rel_axis_m(ms, mo, ps, po, k);
    let d2 = rel_d2_m(ms, mo, ps, po);
    if d2 == 0 {
        0
    } else {
        sgn(dk) * accel_mag(mu_milli(mo), dk, d2, sqrt_floor(d2))
    }
}

/// Truncating division keeps the magnitude-and-sign decomposition: the
/// magnitude of the quotient is the divided magnitude, and the quotient
/// carries the sign of the dividend.
pub(crate) proof fn lemma_trunc_props(a: int, d: int)
    requires
        0 < d,
    ensures
        mag(trunc_div(a, d)) == mag(a) / d,
        trunc_div(a, d) > 0 ==> a > 0,
        trunc_div(a, d) < 0 ==> a < 0,
        trunc_div(-a, d) == -trunc_div(a, d),
{
    vstd::arithmetic::div_mod::lemma_div_pos_is_pos(mag(a), d);
    vstd::arithmetic::div_mod::lemma_div_of0(d);
}

/// The square-root floor of a positive number is at least one, and any axis
/// whose square is within `d2` is bounded by that root.
proof fn lemma_dist_bounds(d2: int, dk: int)
    requires
        0 < d2,
        0 <= dk,
        sq(dk) <= d2,
    ensures
        1 <= sqrt_floor(d2),
        dk <= sqrt_floor(d2),
        dk <= d2,
{
    lemma_sqrt_floor_exists(d2);
    let r = sqrt_floor(d2);
    assert(0 <= r && sq(r) <= d2 < sq(r + 1));
    if r < 1 {
        assert(sq(r + 1) <= 1) by (nonlinear_arith)
            requires
                0 <= r < 1,
        ;
    }
    if dk > r {
        assert(sq(r + 1) <= sq(dk)) by (nonlinear_arith)
            requires
                0 <= r,
                r + 1 <= dk,
        ;
    }
    if dk >= 1 {
        assert(dk <= dk * dk) by (nonlinear_arith)
            requires
                1 <= dk,
        ;
    }
}

/// Staged fixed-point evaluation of `accel_mag`: two exact division splits
/// reproduce the single floor `(1000 * mu * dk) / (d2 * dist)` without any
/// intermediate overflowing 128 bits.
fn accel_axis_mag(mu: u128, dk_mag: u64, d2: u128, dist: u64) -> (am: u128)
    requires
        mu <= MU_LIMIT,
        dk_mag <= REL_SPAN_LIMIT_M,
        sq(dk_mag as int) <= d2,
        0 < d2 <= D2_LIMIT_M2,
        dist == sqrt_floor(d2 as int),
    ensures
        am == accel_mag(mu as int, dk_mag as int, d2 as int, dist as int),
        am <= 1000 * mu,
{
    proof {
        lemma_dist_bounds(d2 as int, dk_mag as int);
        assert(mu * dk_mag <= MU_LIMIT * REL_SPAN_LIMIT_M) by (nonlinear_arith)
            requires
                mu <= MU_LIMIT,
                dk_mag <= REL_SPAN_LIMIT_M,
        ;
    }
    let n: u128 = mu * (dk_mag as u128);
    let q1: u128 = n / d2;
    let r1: u128 = n % d2;
    proof {
        lemma_fundamental_div_mod(n as int, d2 as int);
        assert(n <= mu * d2) by (nonlinear_arith)
            requires
                dk_mag as int <= d2 as int,
                n == mu * dk_mag,
        ;
        lemma_div_is_ordered(n as int, mu as int * d2 as int, d2 as int);
        lemma_div_multiples_vanish(mu as int, d2 as int);
        assert(q1 <= mu);
    }
    let t: u128 = q1 * 1000 + (r1 * 1000) / d2;
    proof {
        lemma_hoist_over_denominator(r1 as int * 1000, q1 as int * 1000, d2 as nat);
        assert(r1 as int * 1000 + (q1 as int * 1000) * (d2 as int) == 1000 * n as int)
            by (nonlinear_arith)
            requires
                n as int == d2 as int * (q1 as int) + r1 as int,
        ;
        assert(t == (1000 * n as int) / (d2 as int));
        let cap = 1000 * mu as int;
        assert(1000 * n as int <= cap * d2 as int) by (nonlinear_arith)
            requires
                n <= mu * d2,
                cap == 1000 * mu as int,
        ;
        lemma_div_is_ordered(1000 * n as int, cap * d2 as int, d2 as int);
        lemma_div_multiples_vanish(cap, d2 as int);
        assert(cap * d2 as int == d2 as int * cap) by (nonlinear_arith);
        assert((d2 as int * cap) / d2 as int == cap);
        assert(t <= cap);
    }
    let am: u128 = t / (dist as u128);
    proof {
        lemma_div_denominator(1000 * n as int, d2 as int, dist as int);
        assert(1000 * (mu as int) * (dk_mag as int) == 1000 * n as int) by (nonlinear_arith)
            requires
                n == mu * dk_mag,
        ;
        lemma_div_is_ordered_by_denominator(t as int, 1, dist as int);
        assert(t as int / 1 == t as int);
    }
    am
}

impl Mass {
    /// Computes the acceleration of this object due to the gravitational
    /// force of another object, from the two positions relative to a shared
    /// origin (micrometers).  The centers of mass are added to the positions
    /// before the distance is taken; a pair whose centers coincide at meter
    /// resolution contributes exactly zero rather than dividing by zero.
    /// The result is directed from this object toward the other, in
    /// micrometers per second squared.
    pub fn acceleration(
        &self,
        other: &Mass,
        position_self: Vec3i,
        position_other: Vec3i,
    ) -> (r: Accel3)
        requires
            mass_valid(*self),
            mass_valid(*other),
            mag(rel_axis_um(*self, *other, position_self, position_other, 0))
                <= REL_SPAN_LIMIT_UM,
            mag(rel_axis_um(*self, *other, position_self, position_other, 1))
                <= REL_SPAN_LIMIT_UM,
            mag(rel_axis_um(*self, *other, position_self, position_other, 2))
                <= REL_SPAN_LIMIT_UM,
        ensures
            r.x == accel_from_positions(*self, *other, position_self, position_other, 0),
            r.y == accel_from_positions(*self, *other, position_self, position_other, 1),
            r.z == accel_from_positions(*self, *other, position_self, position_other, 2),
            mag(r.x as int) <= 1000 * mu_milli(*other),
            mag(r.y as int) <= 1000 * mu_milli(*other),
            mag(r.z as int) <= 1000 * mu_milli(*other),
    {
        let d0: i128 = position_other.x as i128 + other.center.x as i128
            - position_self.x as i128 - self.center.x as i128;
        let d1: i128 = position_other.y as i128 + other.center.y as i128
            - position_self.y as i128 - self.center.y as i128;
        let d2u: i128 = position_other.z as i128 + other.center.z as i128
            - position_self.z as i128 - self.center.z as i128;
        let m0: u64 = (if d0 >= 0 {
            d0 as u128 / (UM_PER_M as u128)
        } else {
            (-d0) as u128 / (UM_PER_M as u128)
        }) as u64;
        let m1: u64 = (if d1 >= 0 {
            d1 as u128 / (UM_PER_M as u128)
        } else {
            (-d1) as u128 / (UM_PER_M as u128)
        }) as u64;
        let m2: u64 = (if d2u >= 0 {
            d2u as u128 / (UM_PER_M as u128)
        } else {
            (-d2u) as u128 / (UM_PER_M as u128)
        }) as u64;
        proof {
            lemma_trunc_props(d0 as int, UM_PER_M as int);
            lemma_trunc_props(d1 as int, UM_PER_M as int);
            lemma_trunc_props(d2u as int, UM_PER_M as int);
            assert(m0 == mag(rel_axis_m(*self, *other, position_self, position_other, 0)));
            assert(m1 == mag(rel_axis_m(*self, *other, position_self, position_other, 1)));
            assert(m2 == mag(rel_axis_m(*self, *other, position_self, position_other, 2)));
            assert(sq(rel_axis_m(*self, *other, position_self, position_other, 0))
                == m0 as int * m0 as int) by (nonlinear_arith)
                requires
                    m0 == mag(rel_axis_m(*self, *other, position_self, position_other, 0)),
            ;
            assert(sq(rel_axis_m(*self, *other, position_self, position_other, 1))
                == m1 as int * m1 as int) by (nonlinear_arith)
                requires
                    m1 == mag(rel_axis_m(*self, *other, position_self, position_other, 1)),
            ;
            assert(sq(rel_axis_m(*self, *other, position_self, position_other, 2))
                == m2 as int * m2 as int) by (nonlinear_arith)
                requires
                    m2 == mag(rel_axis_m(*self, *other, position_self, position_other, 2)),
            ;
            assert(m0 as int * m0 as int <= REL_SPAN_LIMIT_M as int * REL_SPAN_LIMIT_M as int)
                by (nonlinear_arith)
                requires
                    m0 <= REL_SPAN_LIMIT_M,
            ;
            assert(m1 as int * m1 as int <= REL_SPAN_LIMIT_M as int * REL_SPAN_LIMIT_M as int)
                by (nonlinear_arith)
                requires
                    m1 <= REL_SPAN_LIMIT_M,
            ;
            assert(m2 as int * m2 as int <= REL_SPAN_LIMIT_M as int * REL_SPAN_LIMIT_M as int)
                by (nonlinear_arith)
                requires
                    m2 <= REL_SPAN_LIMIT_M,
            ;
        }
        let d2: u128 = m0 as u128 * m0 as u128 + m1 as u128 * m1 as u128
            + m2 as u128 * m2 as u128;
        proof {
            assert(d2 as int == rel_d2_m(*self, *other, position_self, position_other));
        }
        if d2 == 0 {
            return Accel3 { x: 0, y: 0, z: 0 };
        }
        let dist: u64 = isqrt_u128(d2);
        let mu: u128 = MU_MILLI_PER_QUANTUM as u128 * other.value as u128;
        proof {
            assert(mu as int == mu_milli(*other));
        }
        proof {
            assert(mu <= MU_LIMIT) by (nonlinear_arith)
                requires
                    mu == MU_MILLI_PER_QUANTUM as u128 * other.value as u128,
                    other.value <= MASS_LIMIT,
            ;
        }
        let a0m: u128 = accel_axis_mag(mu, m0, d2, dist);
        let a1m: u128 = accel_axis_mag(mu, m1, d2, dist);
        let a2m: u128 = accel_axis_mag(mu, m2, d2, dist);
        let a0: i128 = if d0 >= 0 {
            a0m as i128
        } else {
            -(a0m as i128)
        };
        let a1: i128 = if d1 >= 0 {
            a1m as i128
        } else {
            -(a1m as i128)
        };
        let a2: i128 = if d2u >= 0 {
            a2m as i128
        } else {
            -(a2m as i128)
        };
        proof {
            lemma_accel_sign_glue(
                *self, *other, position_self, position_other, 0, d0 as int, m0 as int,
                d2 as int, dist as int, a0m as int, a0 as int,
            );
            lemma_accel_sign_glue(
                *self, *other, position_self, position_other, 1, d1 as int, m1 as int,
                d2 as int, dist as int, a1m as int, a1 as int,
            );
            lemma_accel_sign_glue(
                *self, *other, position_self, position_other, 2, d2u as int, m2 as int,
                d2 as int, dist as int, a2m as int, a2 as int,
            );
        }
        Accel3 { x: a0, y: a1, z: a2 }
    }
}

/// Glue between the staged per-axis magnitude and the signed specification
/// value: applying the sign of the micrometer separation to the magnitude
/// gives exactly the specified contribution, also when the meter-resolution
/// separation on this axis is zero.
proof fn lemma_accel_sign_glue(
    ms: Mass,
    mo: Mass,
    ps: Vec3i,
    po: Vec3i,
    k: int,
    d_um: int,
    dk_mag: int,
    d2: int,
    dist: int,
    am: int,
    a_signed: int,
)
    requires
        d_um == rel_axis_um(ms, mo, ps, po, k),
        dk_mag == mag(rel_axis_m(ms, mo, ps, po, k)),
        d2 == rel_d2_m(ms, mo, ps, po),
        0 < d2,
        dist == sqrt_floor(d2),
        am == accel_mag(mu_milli(mo), dk_mag, d2, dist),
        a_signed == if d_um >= 0 {
            am
        } else {
            -am
        },
    ensures
        a_signed == accel_from_positions(ms, mo, ps, po, k),
{
    let dk = rel_axis_m(ms, mo, ps, po, k);
    assert(accel_mag(mu_milli(mo), dk, d2, dist) == am);
    lemma_dist_bounds_weak(d2, dist);
    if dk == 0 {
        assert(1000 * mu_milli(mo) * mag(0) == 0) by (nonlinear_arith);
        assert(0 < d2 * dist) by (nonlinear_arith)
            requires
                0 < d2,
                0 < dist,
        ;
        vstd::arithmetic::div_mod::lemma_div_of0(d2 * dist);
        assert(am == 0);
    } else if dk > 0 {
        assert(d_um > 0);
    } else {
        assert(d_um < 0);
    }
}

/// A positive number has a positive square-root floor.
proof fn lemma_dist_bounds_weak(d2: int, dist: int)
    requires
        0 < d2,
        dist == sqrt_floor(d2),
    ensures
        0 < dist,
{
    lemma_sqrt_floor_exists(d2);
    assert(0 <= dist && sq(dist) <= d2 < sq(dist + 1));
    if dist < 1 {
        assert(sq(dist + 1) <= 1) by (nonlinear_arith)
            requires
                0 <= dist < 1,
        ;
    }
}

/// Per-axis cap on one pair's acceleration contribution: `1000 * MU_LIMIT`.
pub const ACCEL_PAIR_CAP: i128 = 33_371_500_000_000_000_000_000_000_000;

/// Cap on an accumulated acceleration: `BODY_LIMIT * ACCEL_PAIR_CAP`, rounded up.
pub const ACCEL_SUM_CAP: i128 = 3_000_000_000_000_000_000_000_000_000_000_000;

/// A simulated body: its label, mass, grid-cell position, velocity, and the
/// flag that exempts it from acting as a gravity source.
#[derive(Debug)]
pub struct Body {
    pub name: Name,
    pub mass: Mass,
    pub cell: GridCell,
    pub offset: Vec3i,
    pub velocity: Velocity,
    pub no_effect: bool,
}

/// A body is valid when its mass is valid, its offset is canonical, its
/// absolute position is in range, and its velocity is bounded.
pub open spec fn body_valid(b: Body) -> bool {
    &&& mass_valid(b.mass)
    &&& offset_canonical(axis(b.offset, 0))
    &&& offset_canonical(axis(b.offset, 1))
    &&& offset_canonical(axis(b.offset, 2))
    &&& axis_in_range(cell_axis(b.cell, 0), axis(b.offset, 0))
    &&& axis_in_range(cell_axis(b.cell, 1), axis(b.offset, 1))
    &&& axis_in_range(cell_axis(b.cell, 2), axis(b.offset, 2))
    &&& mag(axis(b.velocity.velocity, 0)) <= VEL_LIMIT_UM_S
    &&& mag(axis(b.velocity.velocity, 1)) <= VEL_LIMIT_UM_S
    &&& mag(axis(b.velocity.velocity, 2)) <= VEL_LIMIT_UM_S
}

/// Absolute center-of-mass coordinate of a body on axis `k`, micrometers.
pub open spec fn com_um(b: Body, k: int) -> int {
    axis_abs(cell_axis(b.cell, k), axis(b.offset, k)) + axis(b.mass.center, k)
}

/// Center-of-mass separation from body `bi` to body `bj` on axis `k`.
pub open spec fn pair_d_um(bi: Body, bj: Body, k: int) -> int {
    com_um(bj, k) - com_um(bi, k)
}

/// The separation truncated to whole meters.
pub open spec fn pair_d_m(bi: Body, bj: Body, k: int) -> int {
    trunc_div(pair_d_um(bi, bj, k), UM_PER_M as int)
}

/// Squared center-of-mass distance between two bodies, square meters.
pub open spec fn pair_d2_m(bi: Body, bj: Body) -> int {
    sq(pair_d_m(bi, bj, 0)) + sq(pair_d_m(bi, bj, 1)) + sq(pair_d_m(bi, bj, 2))
}

/// Acceleration that body `bi` experiences from source body `bj` on axis
/// `k`, directed from `bi` toward `bj`; exactly zero for a pair whose
/// centers of mass coincide at meter resolution.
pub open spec fn pair_accel(bi: Body, bj: Body, k: int) -> int {
    let dk = pair_d_m(bi, bj, k);
    let d2 = pair_d2_m(bi, bj);
    if d2 == 0 {
        0
    } else {
        sgn(dk) * accel_mag(mu_milli(bj.mass), dk, d2, sqrt_floor(d2))
    }
}

/// Contribution of source `j` to the acceleration of body `i`: zero for the
/// self-pair and for gravity-exempt sources, the pair acceleration
/// otherwise.
pub open spec fn source_contrib(s: Seq<Body>, i: int, j: int, k: int) -> int {
    if i == j || s[j].no_effect {
        0
    } else {
        pair_accel(s[i], s[j], k)
    }
}

/// Acceleration of body `i` on axis `k`, summed over the first `n` sources.
pub open spec fn accel_sum(s: Seq<Body>, i: int, k: int, n: int) -> int
    decreases n,
{
    if n <= 0 {
        0
    } else {
        accel_sum(s, i, k, n - 1) + source_contrib(s, i, n - 1, k)
    }
}

/// Scale a per-second rate by an effective duration in microseconds,
/// truncating toward zero: `a * eff / 1e6`.
pub open spec fn time_scaled(a: int, eff: int) -> int {
    sgn(a) * ((mag(a) * eff) / 1_000_000)
}

/// Velocity of body `i` on axis `k` after the acceleration pass: the old
/// velocity plus the time-scaled acceleration sum, clamped to the
/// representable velocity range.  Each contribution points from the body
/// toward its source, so adding it pulls the body toward the attractor;
/// the circular-orbit behaviour of the integrator fixes this sign.
pub open spec fn vel_axis_after(s: Seq<Body>, i: int, k: int, eff: int) -> int {
    clamp_i(
        axis(s[i].velocity.velocity, k) + time_scaled(accel_sum(s, i, k, s.len() as int), eff),
        -VEL_LIMIT_UM_S as int,
        VEL_LIMIT_UM_S as int,
    )
}

/// Body `i` with the velocity the acceleration pass assigns; every other
/// field is untouched.
pub open spec fn body_with_updated_velocity(s: Seq<Body>, i: int, eff: int) -> Body {
    Body {
        name: s[i].name,
        mass: s[i].mass,
        cell: s[i].cell,
        offset: s[i].offset,
        velocity: Velocity {
            velocity: Vec3i {
                x: vel_axis_after(s, i, 0, eff) as i64,
                y: vel_axis_after(s, i, 1, eff) as i64,
                z: vel_axis_after(s, i, 2, eff) as i64,
            },
        },
        no_effect: s[i].no_effect,
    }
}

/// The whole body set after the acceleration pass.
pub open spec fn velocities_updated(s: Seq<Body>, eff: int) -> Seq<Body> {
    Seq::new(s.len(), |i: int| body_with_updated_velocity(s, i, eff))
}

/// Absolute coordinate after applying a velocity for an effective duration,
/// clamped to the coordinate range of the simulation arena.
pub open spec fn pos_axis_clamped(c: int, o: int, v: int, eff: int) -> int {
    clamp_i(
        axis_abs(c, o) + time_scaled(v, eff),
        -COORD_LIMIT_UM as int,
        COORD_LIMIT_UM as int,
    )
}

/// Body `i` with its position advanced by its velocity and re-partitioned
/// into a canonical (cell, offset) pair; every other field is untouched.
pub open spec fn body_with_applied_position(s: Seq<Body>, i: int, eff: int) -> Body {
    let p0 = pos_axis_clamped(
        cell_axis(s[i].cell, 0),
        axis(s[i].offset, 0),
        axis(s[i].velocity.velocity, 0),
        eff,
    );
    let p1 = pos_axis_clamped(
        cell_axis(s[i].cell, 1),
        axis(s[i].offset, 1),
        axis(s[i].velocity.velocity, 1),
        eff,
    );
    let p2 = pos_axis_clamped(
        cell_axis(s[i].cell, 2),
        axis(s[i].offset, 2),
        axis(s[i].velocity.velocity, 2),
        eff,
    );
    Body {
        name: s[i].name,
        mass: s[i].mass,
        cell: GridCell {
            x: grid_cell_of(p0) as i64,
            y: grid_cell_of(p1) as i64,
            z: grid_cell_of(p2) as i64,
        },
        offset: Vec3i {
            x: local_offset_of(p0) as i64,
            y: local_offset_of(p1) as i64,
            z: local_offset_of(p2) as i64,
        },
        velocity: s[i].velocity,
        no_effect: s[i].no_effect,
    }
}

/// The whole body set after the position-application pass.
pub open spec fn positions_applied(s: Seq<Body>, eff: int) -> Seq<Body> {
    Seq::new(s.len(), |i: int| body_with_applied_position(s, i, eff))
}

/// Every body of the set is valid.
pub open spec fn set_wf(s: Seq<Body>) -> bool {
    forall|i: int| 0 <= i < s.len() ==> body_valid(#[trigger] s[i])
}

/// Acceleration of one body due to another, computed through the coordinate
/// model: the integer cell delta gives the coarse part of the separation
/// exactly, so no precision is lost however far the pair is from the origin.
fn body_pair_accel(bi: &Body, bj: &Body) -> (r: Accel3)
    requires
        body_valid(*bi),
        body_valid(*bj),
    ensures
        r.x == pair_accel(*bi, *bj, 0),
        r.y == pair_accel(*bi, *bj, 1),
        r.z == pair_accel(*bi, *bj, 2),
        mag(r.x as int) <= ACCEL_PAIR_CAP,
        mag(r.y as int) <= ACCEL_PAIR_CAP,
        mag(r.z as int) <= ACCEL_PAIR_CAP,
{
    let rel = crate::grid::relative(bj.cell, bj.offset, bi.cell);
    let position_other = Vec3i {
        x: rel.x - bi.offset.x,
        y: rel.y - bi.offset.y,
        z: rel.z - bi.offset.z,
    };
    let position_self = Vec3i { x: 0, y: 0, z: 0 };
    proof {
        assert(rel_axis_um(bi.mass, bj.mass, position_self, position_other, 0)
            == pair_d_um(*bi, *bj, 0));
        assert(rel_axis_um(bi.mass, bj.mass, position_self, position_other, 1)
            == pair_d_um(*bi, *bj, 1));
        assert(rel_axis_um(bi.mass, bj.mass, position_self, position_other, 2)
            == pair_d_um(*bi, *bj, 2));
    }
    let a = bi.mass.acceleration(&bj.mass, position_self, position_other);
    proof {
        assert(rel_d2_m(bi.mass, bj.mass, position_self, position_other)
            == pair_d2_m(*bi, *bj));
        assert(a.x == pair_accel(*bi, *bj, 0));
        assert(a.y == pair_accel(*bi, *bj, 1));
        assert(a.z == pair_accel(*bi, *bj, 2));
        assert(1000 * mu_milli(bj.mass) <= ACCEL_PAIR_CAP) by (nonlinear_arith)
            requires
                bj.mass.value <= MASS_LIMIT,
        ;
    }
    a
}

/// Fold a time-scaled acceleration sum into one velocity axis, saturating
/// the intermediate change so that nothing overflows; the saturation bound
/// exceeds the whole velocity range, so the clamped result is exactly the
/// ideal one.
fn apply_dv(v: i64, sum: i128, eff: u64) -> (nv: i64)
    requires
        mag(v as int) <= VEL_LIMIT_UM_S,
        mag(sum as int) <= ACCEL_SUM_CAP,
        eff <= EFF_LIMIT_US,
    ensures
        nv == clamp_i(
            v + time_scaled(sum as int, eff as int),
            -VEL_LIMIT_UM_S as int,
            VEL_LIMIT_UM_S as int,
        ),
{
    if eff == 0 {
        proof {
            vstd::arithmetic::div_mod::lemma_div_of0(1_000_000);
            assert(mag(sum as int) * 0 == 0) by (nonlinear_arith);
            assert(time_scaled(sum as int, 0) == 0) by (nonlinear_arith)
                requires
                    (mag(sum as int) * 0) / 1_000_000 == 0,
            ;
        }
        return v;
    }
    let sm: u128 = if sum >= 0 {
        sum as u128
    } else {
        (-sum) as u128
    };
    let q: u128 = sm / 1_000_000;
    let r: u128 = sm % 1_000_000;
    proof {
        lemma_fundamental_div_mod(sm as int, 1_000_000);
    }
    let ghost true_dv: int = (mag(sum as int) * eff) / 1_000_000;
    let dvm: u128;
    if q > DV_SAT_UM_S / (eff as u128) {
        proof {
            let cap = DV_SAT_UM_S as int;
            let e = eff as int;
            lemma_fundamental_div_mod(cap, e);
            assert(q * e > cap) by (nonlinear_arith)
                requires
                    q >= cap / e + 1,
                    cap == e * (cap / e) + cap % e,
                    0 <= cap % e < e,
                    0 < e,
            ;
            assert(sm * e >= (q * 1_000_000) * e) by (nonlinear_arith)
                requires
                    sm >= q * 1_000_000,
                    0 < e,
            ;
            assert((q * 1_000_000) * e == (q * e) * 1_000_000) by (nonlinear_arith);
            lemma_div_is_ordered((q * e) * 1_000_000, sm as int * e, 1_000_000);
            lemma_div_multiples_vanish(q as int * e, 1_000_000);
            assert(1_000_000 * (q as int * e) == (q as int * e) * 1_000_000)
                by (nonlinear_arith);
            assert(true_dv >= q * e);
            assert(true_dv > cap);
        }
        dvm = DV_SAT_UM_S;
    } else {
        proof {
            let cap = DV_SAT_UM_S as int;
            let e = eff as int;
            lemma_fundamental_div_mod(cap, e);
            assert(q * e <= cap) by (nonlinear_arith)
                requires
                    q <= cap / e,
                    cap == e * (cap / e) + cap % e,
                    0 <= cap % e,
                    0 < e,
            ;
        }
        let t1: u128 = q * (eff as u128);
        proof {
            vstd::arithmetic::div_mod::lemma_mod_pos_bound(sm as int, 1_000_000);
            assert(r * eff <= 1_000_000 * EFF_LIMIT_US) by (nonlinear_arith)
                requires
                    r < 1_000_000,
                    eff <= EFF_LIMIT_US,
            ;
        }
        let t2: u128 = (r * (eff as u128)) / 1_000_000;
        let full: u128 = t1 + t2;
        proof {
            let e = eff as int;
            lemma_hoist_over_denominator(r as int * e, q as int * e, 1_000_000);
            assert(r as int * e + (q as int * e) * 1_000_000 == sm as int * e)
                by (nonlinear_arith)
                requires
                    sm as int == 1_000_000 * (q as int) + r as int,
            ;
            assert(full == true_dv);
        }
        dvm = if full > DV_SAT_UM_S {
            DV_SAT_UM_S
        } else {
            full
        };
    }
    proof {
        assert(dvm <= DV_SAT_UM_S);
        assert(dvm < DV_SAT_UM_S ==> dvm == true_dv);
        assert(dvm == DV_SAT_UM_S ==> true_dv >= DV_SAT_UM_S);
        assert(0 <= true_dv);
    }
    let sd: i128 = if sum >= 0 {
        dvm as i128
    } else {
        -(dvm as i128)
    };
    let cand: i128 = v as i128 + sd;
    let nv: i64 = if cand > VEL_LIMIT_UM_S as i128 {
        VEL_LIMIT_UM_S
    } else if cand < -VEL_LIMIT_UM_S as i128 {
        -VEL_LIMIT_UM_S
    } else {
        cand as i64
    };
    proof {
        let ideal = clamp_i(
            v + time_scaled(sum as int, eff as int),
            -VEL_LIMIT_UM_S as int,
            VEL_LIMIT_UM_S as int,
        );
        if sum >= 0 {
            assert(time_scaled(sum as int, eff as int) == if sum > 0 {
                true_dv
            } else {
                0
            });
            if sum == 0 {
                assert(sm == 0);
                assert(dvm == 0);
            }
        } else {
            assert(time_scaled(sum as int, eff as int) == -true_dv);
        }
        assert(nv == ideal);
    }
    nv
}

/// Advance one position axis by its velocity over an effective duration and
/// re-partition the result into a canonical (cell, offset) pair.
fn apply_axis(c: i64, o: i64, v: i64, eff: u64) -> (r: (i64, i64))
    requires
        axis_in_range(c as int, o as int),
        offset_canonical(o as int),
        mag(v as int) <= VEL_LIMIT_UM_S,
        eff <= EFF_LIMIT_US,
    ensures
        r.0 == grid_cell_of(pos_axis_clamped(c as int, o as int, v as int, eff as int)),
        r.1 == local_offset_of(pos_axis_clamped(c as int, o as int, v as int, eff as int)),
        offset_canonical(r.1 as int),
        axis_abs(r.0 as int, r.1 as int)
            == pos_axis_clamped(c as int, o as int, v as int, eff as int),
{
    let vm: u128 = if v >= 0 {
        v as u128
    } else {
        (-v) as u128
    };
    proof {
        assert(vm as int == mag(v as int));
        assert(vm * eff <= 1_000_000_000_000_000_000_000_000_000_000) by (nonlinear_arith)
            requires
                vm <= 1_000_000_000_000_000_000u128,
                eff <= 1_000_000_000_000u64,
        ;
    }
    let dmag: u128 = (vm * (eff as u128)) / 1_000_000;
    let sd: i128 = if v >= 0 {
        dmag as i128
    } else {
        -(dmag as i128)
    };
    proof {
        vstd::arithmetic::div_mod::lemma_div_of0(1_000_000);
        assert(mag(v as int) * (eff as int) == vm as int * (eff as int));
        assert(dmag as int == (mag(v as int) * (eff as int)) / 1_000_000);
        if v == 0 {
            assert(mag(v as int) * (eff as int) == 0) by (nonlinear_arith)
                requires
                    mag(v as int) == 0,
            ;
            assert(dmag == 0);
        }
        assert(sd == time_scaled(v as int, eff as int));
        assert(mag(c as int) <= 460_000_000) by (nonlinear_arith)
            requires
                mag(c as int * CELL_EDGE_UM + o as int) <= COORD_LIMIT_UM,
                mag(o as int) <= HALF_CELL_UM,
                CELL_EDGE_UM == 10_000_000_000i64,
                COORD_LIMIT_UM == 4_500_000_000_000_000_000i64,
                HALF_CELL_UM == 5_000_000_000i64,
        ;
        assert(c as i128 * CELL_EDGE_UM as i128 == c as int * CELL_EDGE_UM as int);
    }
    let base: i128 = c as i128 * (CELL_EDGE_UM as i128) + o as i128;
    let cand: i128 = base + sd;
    let cl: i64 = if cand > COORD_LIMIT_UM as i128 {
        COORD_LIMIT_UM
    } else if cand < -COORD_LIMIT_UM as i128 {
        -COORD_LIMIT_UM
    } else {
        cand as i64
    };
    proof {
        assert(cl as int == pos_axis_clamped(c as int, o as int, v as int, eff as int));
    }
    to_grid_axis(cl)
}

impl Velocity {
    pub fn new(velocity: Vec3i) -> (r: Velocity)
        ensures
            r.velocity == velocity,
    {
        Velocity { velocity }
    }

    pub fn zero() -> (r: Velocity)
        ensures
            r.velocity == (Vec3i { x: 0i64, y: 0i64, z: 0i64 }),
    {
        Velocity { velocity: Vec3i { x: 0, y: 0, z: 0 } }
    }

    /// Apply this velocity to a grid-cell position for one tick, updating
    /// the cell where the displaced offset leaves its bound (the rebasing
    /// check), so the returned offset is canonical again.
    pub fn apply(&self, cell: GridCell, offset: Vec3i, clock: &SimulationClock) -> (r: (
        GridCell,
        Vec3i,
    ))
        requires
            clock_wf(*clock),
            offset_canonical(offset.x as int),
            offset_canonical(offset.y as int),
            offset_canonical(offset.z as int),
            axis_in_range(cell.x as int, offset.x as int),
            axis_in_range(cell.y as int, offset.y as int),
            axis_in_range(cell.z as int, offset.z as int),
            mag(self.velocity.x as int) <= VEL_LIMIT_UM_S,
            mag(self.velocity.y as int) <= VEL_LIMIT_UM_S,
            mag(self.velocity.z as int) <= VEL_LIMIT_UM_S,
        ensures
            r.0.x == grid_cell_of(
                pos_axis_clamped(
                    cell.x as int,
                    offset.x as int,
                    self.velocity.x as int,
                    clock_eff(*clock),
                ),
            ),
            r.1.x == local_offset_of(
                pos_axis_clamped(
                    cell.x as int,
                    offset.x as int,
                    self.velocity.x as int,
                    clock_eff(*clock),
                ),
            ),
            r.0.y == grid_cell_of(
                pos_axis_clamped(
                    cell.y as int,
                    offset.y as int,
                    self.velocity.y as int,
                    clock_eff(*clock),
                ),
            ),
            r.1.y == local_offset_of(
                pos_axis_clamped(
                    cell.y as int,
                    offset.y as int,
                    self.velocity.y as int,
                    clock_eff(*clock),
                ),
            ),
            r.0.z == grid_cell_of(
                pos_axis_clamped(
                    cell.z as int,
                    offset.z as int,
                    self.velocity.z as int,
                    clock_eff(*clock),
                ),
            ),
            r.1.z == local_offset_of(
                pos_axis_clamped(
                    cell.z as int,
                    offset.z as int,
                    self.velocity.z as int,
                    clock_eff(*clock),
                ),
            ),
    {
        let eff = clock.effective_us();
        let (cx, ox) = apply_axis(cell.x, offset.x, self.velocity.x, eff);
        let (cy, oy) = apply_axis(cell.y, offset.y, self.velocity.y, eff);
        let (cz, oz) = apply_axis(cell.z, offset.z, self.velocity.z, eff);
        (GridCell { x: cx, y: cy, z: cz }, Vec3i { x: ox, y: oy, z: oz })
    }
}

/// Accumulate the acceleration of body `i` over every other non-exempt
/// source in the set, reading only an unmutated snapshot of the bodies.
#[verifier::rlimit(100)]
fn accumulate_accel(bodies: &Vec<Body>, i: usize) -> (r: Accel3)
    requires
        set_wf(bodies@),
        i < bodies@.len(),
        bodies@.len() <= BODY_LIMIT,
    ensures
        r.x == accel_sum(bodies@, i as int, 0, bodies@.len() as int),
        r.y == accel_sum(bodies@, i as int, 1, bodies@.len() as int),
        r.z == accel_sum(bodies@, i as int, 2, bodies@.len() as int),
        mag(r.x as int) <= ACCEL_SUM_CAP,
        mag(r.y as int) <= ACCEL_SUM_CAP,
        mag(r.z as int) <= ACCEL_SUM_CAP,
{
    let n: usize = bodies.len();
    let mut ax: i128 = 0;
    let mut ay: i128 = 0;
    let mut az: i128 = 0;
    let mut j: usize = 0;
    while j < n
        invariant
            j <= n,
            i < n,
            n == bodies@.len(),
            n <= BODY_LIMIT,
            set_wf(bodies@),
            ax == accel_sum(bodies@, i as int, 0, j as int),
            ay == accel_sum(bodies@, i as int, 1, j as int),
            az == accel_sum(bodies@, i as int, 2, j as int),
            mag(ax as int) <= j * ACCEL_PAIR_CAP,
            mag(ay as int) <= j * ACCEL_PAIR_CAP,
            mag(az as int) <= j * ACCEL_PAIR_CAP,
        decreases n - j,
    {
        proof {
            assert(body_valid(bodies@[i as int]));
            assert(body_valid(bodies@[j as int]));
            assert((j + 1) * ACCEL_PAIR_CAP == j * ACCEL_PAIR_CAP + ACCEL_PAIR_CAP)
                by (nonlinear_arith);
            assert(j * ACCEL_PAIR_CAP <= BODY_LIMIT * ACCEL_PAIR_CAP) by (nonlinear_arith)
                requires
                    0 <= j <= BODY_LIMIT,
                    0 < ACCEL_PAIR_CAP,
            ;
        }
        if j != i && !bodies[j].no_effect {
            let c = body_pair_accel(&bodies[i], &bodies[j]);
            ax = ax + c.x;
            ay = ay + c.y;
            az = az + c.z;
        }
        j = j + 1;
    }
    proof {
        assert(BODY_LIMIT * ACCEL_PAIR_CAP <= ACCEL_SUM_CAP) by (nonlinear_arith);
        assert(n * ACCEL_PAIR_CAP <= BODY_LIMIT * ACCEL_PAIR_CAP) by (nonlinear_arith)
            requires
                0 <= n <= BODY_LIMIT,
                0 < ACCEL_PAIR_CAP,
        ;
    }
    Accel3 { x: ax, y: ay, z: az }
}

/// The registry of simulated bodies: an exclusively owned collection that
/// the integrator mutates for the duration of a tick.
#[derive(Debug)]
pub struct BodySet {
    pub bodies: Vec<Body>,
}

impl BodySet {
    pub fn new() -> (r: BodySet)
        ensures
            r.bodies@.len() == 0,
    {
        BodySet { bodies: Vec::new() }
    }

    /// Add a body at scene setup.
    pub fn spawn(&mut self, body: Body)
        requires
            body_valid(body),
            old(self).bodies@.len() < BODY_LIMIT,
        ensures
            final(self).bodies@ == old(self).bodies@.push(body),
    {
        self.bodies.push(body);
    }

    pub fn len(&self) -> (n: usize)
        ensures
            n == self.bodies@.len(),
    {
        self.bodies.len()
    }

    pub fn body(&self, i: usize) -> (b: &Body)
        requires
            i < self.bodies@.len(),
        ensures
            *b == self.bodies@[i as int],
    {
        &self.bodies[i]
    }

    /// The acceleration pass: accumulate, over one unmutated snapshot of the
    /// body set, the pairwise acceleration of every body from every other
    /// non-exempt source, scale it by the effective tick duration, and fold
    /// it into the velocities.  Positions are not touched.
    pub fn update_velocities(&mut self, clock: &SimulationClock)
        requires
            clock_wf(*clock),
            set_wf(old(self).bodies@),
            old(self).bodies@.len() <= BODY_LIMIT,
        ensures
            final(self).bodies@ == velocities_updated(old(self).bodies@, clock_eff(*clock)),
            set_wf(final(self).bodies@),
            final(self).bodies@.len() == old(self).bodies@.len(),
    {
        let eff: u64 = clock.effective_us();
        let ghost s0 = self.bodies@;
        let n: usize = self.bodies.len();
        let mut accs: Vec<Accel3> = Vec::new();
        let mut i: usize = 0;
        while i < n
            invariant
                i <= n,
                n == s0.len(),
                n <= BODY_LIMIT,
                self.bodies@ == s0,
                set_wf(s0),
                accs@.len() == i,
                forall|t: int|
                    0 <= t < i ==> {
                        &&& (#[trigger] accs@[t]).x == accel_sum(s0, t, 0, n as int)
                        &&& accs@[t].y == accel_sum(s0, t, 1, n as int)
                        &&& accs@[t].z == accel_sum(s0, t, 2, n as int)
                        &&& mag(accs@[t].x as int) <= ACCEL_SUM_CAP
                        &&& mag(accs@[t].y as int) <= ACCEL_SUM_CAP
                        &&& mag(accs@[t].z as int) <= ACCEL_SUM_CAP
                    },
            decreases n - i,
        {
            let acc = accumulate_accel(&self.bodies, i);
            accs.push(acc);
            i = i + 1;
        }
        let ghost effi: int = clock_eff(*clock);
        let mut i: usize = 0;
        while i < n
            invariant
                i <= n,
                n == s0.len(),
                n <= BODY_LIMIT,
                self.bodies@.len() == n,
                accs@.len() == n,
                set_wf(s0),
                eff == effi,
                eff <= EFF_LIMIT_US,
                forall|t: int|
                    0 <= t < n ==> {
                        &&& (#[trigger] accs@[t]).x == accel_sum(s0, t, 0, n as int)
                        &&& accs@[t].y == accel_sum(s0, t, 1, n as int)
                        &&& accs@[t].z == accel_sum(s0, t, 2, n as int)
                        &&& mag(accs@[t].x as int) <= ACCEL_SUM_CAP
                        &&& mag(accs@[t].y as int) <= ACCEL_SUM_CAP
                        &&& mag(accs@[t].z as int) <= ACCEL_SUM_CAP
                    },
                forall|t: int| i <= t < n ==> #[trigger] self.bodies@[t] == s0[t],
                forall|t: int|
                    0 <= t < i ==> #[trigger] self.bodies@[t] == body_with_updated_velocity(
                        s0,
                        t,
                        effi,
                    ),
            decreases n - i,
        {
            proof {
                assert(body_valid(s0[i as int]));
            }
            let a = accs[i];
            let vx = self.bodies[i].velocity.velocity.x;
            let vy = self.bodies[i].velocity.velocity.y;
            let vz = self.bodies[i].velocity.velocity.z;
            let nvx = apply_dv(vx, a.x, eff);
            let nvy = apply_dv(vy, a.y, eff);
            let nvz = apply_dv(vz, a.z, eff);
            let bref = &mut self.bodies[i];
            bref.velocity = Velocity { velocity: Vec3i { x: nvx, y: nvy, z: nvz } };
            proof {
                assert(self.bodies@[i as int] == body_with_updated_velocity(s0, i as int, effi));
            }
            i = i + 1;
        }
        proof {
            assert(self.bodies@ =~= velocities_updated(s0, effi));
            assert forall|t: int| 0 <= t < n implies body_valid(
                #[trigger] velocities_updated(s0, effi)[t],
            ) by {
                assert(body_valid(s0[t]));
            }
        }
    }

    /// The position-application pass: move every body by its velocity over
    /// the effective tick duration, then run the rebasing check so every
    /// offset is canonical again.  Velocities are not touched.  It must run
    /// strictly after the acceleration pass of the same tick.
    pub fn apply_positions(&mut self, clock: &SimulationClock)
        requires
            clock_wf(*clock),
            set_wf(old(self).bodies@),
        ensures
            final(self).bodies@ == positions_applied(old(self).bodies@, clock_eff(*clock)),
            set_wf(final(self).bodies@),
            final(self).bodies@.len() == old(self).bodies@.len(),
    {
        let eff: u64 = clock.effective_us();
        let ghost s0 = self.bodies@;
        let ghost effi: int = clock_eff(*clock);
        let n: usize = self.bodies.len();
        let mut i: usize = 0;
        while i < n
            invariant
                i <= n,
                n == s0.len(),
                self.bodies@.len() == n,
                set_wf(s0),
                eff == effi,
                eff <= EFF_LIMIT_US,
                forall|t: int| i <= t < n ==> #[trigger] self.bodies@[t] == s0[t],
                forall|t: int|
                    0 <= t < i ==> #[trigger] self.bodies@[t] == body_with_applied_position(
                        s0,
                        t,
                        effi,
                    ),
            decreases n - i,
        {
            proof {
                assert(body_valid(s0[i as int]));
            }
            let cell = self.bodies[i].cell;
            let offset = self.bodies[i].offset;
            let vel = self.bodies[i].velocity.velocity;
            let (cx, ox) = apply_axis(cell.x, offset.x, vel.x, eff);
            let (cy, oy) = apply_axis(cell.y, offset.y, vel.y, eff);
            let (cz, oz) = apply_axis(cell.z, offset.z, vel.z, eff);
            let bref = &mut self.bodies[i];
            bref.cell = GridCell { x: cx, y: cy, z: cz };
            bref.offset = Vec3i { x: ox, y: oy, z: oz };
            proof {
                assert(self.bodies@[i as int] == body_with_applied_position(s0, i as int, effi));
            }
            i = i + 1;
        }
        proof {
            assert(self.bodies@ =~= positions_applied(s0, effi));
            assert forall|t: int| 0 <= t < n implies body_valid(
                #[trigger] positions_applied(s0, effi)[t],
            ) by {
                assert(body_valid(s0[t]));
                lemma_pos_after_valid(s0, t, effi);
            }
        }
    }

    /// One full simulation tick: the acceleration pass over a consistent
    /// snapshot, then the position-application pass.
    pub fn tick(&mut self, clock: &SimulationClock)
        requires
            clock_wf(*clock),
            set_wf(old(self).bodies@),
            old(self).bodies@.len() <= BODY_LIMIT,
        ensures
            final(self).bodies@ == positions_applied(
                velocities_updated(old(self).bodies@, clock_eff(*clock)),
                clock_eff(*clock),
            ),
            set_wf(final(self).bodies@),
            final(self).bodies@.len() == old(self).bodies@.len(),
    {
        self.update_velocities(clock);
        self.apply_positions(clock);
    }
}

impl Body {
    /// Runtime check of the registry's validity conditions, for callers
    /// that assemble bodies from unchecked input.
    pub fn is_valid(&self) -> (r: bool)
        ensures
            r == body_valid(*self),
    {
        let m = &self.mass;
        let mass_ok = m.value <= MASS_LIMIT && m.center.x >= -CENTER_LIMIT_UM && m.center.x
            <= CENTER_LIMIT_UM && m.center.y >= -CENTER_LIMIT_UM && m.center.y <= CENTER_LIMIT_UM
            && m.center.z >= -CENTER_LIMIT_UM && m.center.z <= CENTER_LIMIT_UM;
        let off_ok = self.offset.x >= -HALF_CELL_UM && self.offset.x < HALF_CELL_UM
            && self.offset.y >= -HALF_CELL_UM && self.offset.y < HALF_CELL_UM && self.offset.z
            >= -HALF_CELL_UM && self.offset.z < HALF_CELL_UM;
        let cell_in_range = |c: i64, o: i64| -> (ok: bool)
            ensures
                ok == axis_in_range(c as int, o as int),
            {
                c as i128 * (CELL_EDGE_UM as i128) + o as i128 >= -(COORD_LIMIT_UM as i128)
                    && c as i128 * (CELL_EDGE_UM as i128) + o as i128 <= COORD_LIMIT_UM as i128
            };
        let pos_ok = cell_in_range(self.cell.x, self.offset.x) && cell_in_range(
            self.cell.y,
            self.offset.y,
        ) && cell_in_range(self.cell.z, self.offset.z);
        let v = &self.velocity.velocity;
        let vel_ok = v.x >= -VEL_LIMIT_UM_S && v.x <= VEL_LIMIT_UM_S && v.y >= -VEL_LIMIT_UM_S
            && v.y <= VEL_LIMIT_UM_S && v.z >= -VEL_LIMIT_UM_S && v.z <= VEL_LIMIT_UM_S;
        mass_ok && off_ok && pos_ok && vel_ok
    }
}

impl SimulationClock {
    /// Runtime check that the effective duration is representable.
    pub fn is_wf(&self) -> (r: bool)
        ensures
            r == clock_wf(*self),
    {
        proof {
            assert((self.elapsed_us as int) * (self.scale as int) <= 0xffffffffffffffffint
                * 0xffffffffint) by (nonlinear_arith)
                requires
                    self.elapsed_us <= 0xffffffffffffffffu64,
                    self.scale <= 0xffffffffu32,
            ;
        }
        (self.elapsed_us as u128) * (self.scale as u128) <= EFF_LIMIT_US as u128
    }
}

/// Newton's third law, at the resolution of the force model.  For any two
/// bodies with distinct centers of mass at meter resolution, the squared
/// distance and the distance are symmetric, the per-axis separations are
/// exactly opposite, and the mass-weighted ideal accelerations cancel
/// exactly: over the common denominator `d2 * dist`, the numerator of
/// `m_i * a_i` equals the negated numerator of `m_j * a_j` on every axis.
/// The rounded fixed-point contributions therefore point in opposite
/// directions (their product is never positive); after the final floor the
/// magnitudes `m_i * |a_i|` and `m_j * |a_j|` can differ by less than one
/// rounding quantum, which is the only deviation the fixed-point model
/// admits.
pub proof fn lemma_newton_third_law(bi: Body, bj: Body, k: int)
    requires
        0 <= k < 3,
        pair_d2_m(bi, bj) != 0,
    ensures
        pair_d2_m(bj, bi) == pair_d2_m(bi, bj),
        sqrt_floor(pair_d2_m(bj, bi)) == sqrt_floor(pair_d2_m(bi, bj)),
        pair_d_m(bj, bi, k) == -pair_d_m(bi, bj, k),
        bi.mass.value * (1000 * mu_milli(bj.mass) * pair_d_m(bi, bj, k)) == -(bj.mass.value * (
        1000 * mu_milli(bi.mass) * pair_d_m(bj, bi, k))),
        pair_accel(bi, bj, k) * pair_accel(bj, bi, k) <= 0,
{
    lemma_trunc_props(pair_d_um(bi, bj, 0), UM_PER_M as int);
    lemma_trunc_props(pair_d_um(bi, bj, 1), UM_PER_M as int);
    lemma_trunc_props(pair_d_um(bi, bj, 2), UM_PER_M as int);
    assert(pair_d_um(bj, bi, 0) == -pair_d_um(bi, bj, 0));
    assert(pair_d_um(bj, bi, 1) == -pair_d_um(bi, bj, 1));
    assert(pair_d_um(bj, bi, 2) == -pair_d_um(bi, bj, 2));
    assert(pair_d_m(bj, bi, 0) == -pair_d_m(bi, bj, 0));
    assert(pair_d_m(bj, bi, 1) == -pair_d_m(bi, bj, 1));
    assert(pair_d_m(bj, bi, 2) == -pair_d_m(bi, bj, 2));
    assert forall|a: int| #[trigger] sq(-a) == sq(a) by {
        assert(sq(-a) == sq(a)) by (nonlinear_arith);
    }
    assert(pair_d2_m(bj, bi) == pair_d2_m(bi, bj));
    let d = pair_d_m(bi, bj, k);
    let mi = bi.mass.value as int;
    let mj = bj.mass.value as int;
    assert(mi * (1000 * ((MU_MILLI_PER_QUANTUM as int) * mj) * d) == -(mj * (1000 * ((
    MU_MILLI_PER_QUANTUM as int) * mi) * (-d)))) by (nonlinear_arith);
    let d2 = pair_d2_m(bi, bj);
    let dist = sqrt_floor(d2);
    lemma_dist_bounds_weak(d2, dist);
    let ma = accel_mag(mu_milli(bj.mass), d, d2, dist);
    let mb = accel_mag(mu_milli(bi.mass), -d, d2, dist);
    assert(0 < d2 * dist) by (nonlinear_arith)
        requires
            0 < d2,
            0 < dist,
    ;
    vstd::arithmetic::div_mod::lemma_div_pos_is_pos(1000 * mu_milli(bj.mass) * mag(d), d2 * dist);
    vstd::arithmetic::div_mod::lemma_div_pos_is_pos(1000 * mu_milli(bi.mass) * mag(-d), d2 * dist);
    assert(0 <= 1000 * mu_milli(bj.mass) * mag(d)) by (nonlinear_arith)
        requires
            0 <= mu_milli(bj.mass),
            0 <= mag(d),
    ;
    assert(0 <= 1000 * mu_milli(bi.mass) * mag(-d)) by (nonlinear_arith)
        requires
            0 <= mu_milli(bi.mass),
            0 <= mag(-d),
    ;
    assert((sgn(d) * ma) * (sgn(-d) * mb) <= 0) by (nonlinear_arith)
        requires
            0 <= ma,
            0 <= mb,
            sgn(-d) == -sgn(d),
            -1 <= sgn(d) <= 1,
    ;
}

/// Zero-distance guard: two bodies placed at the identical position (same
/// cell, same offset, same center-of-mass offset) contribute exactly zero
/// acceleration to each other; the degenerate pair is defined away rather
/// than producing an undefined quotient.
pub proof fn lemma_zero_distance_guard(bi: Body, bj: Body, k: int)
    requires
        bi.cell == bj.cell,
        bi.offset == bj.offset,
        bi.mass.center == bj.mass.center,
    ensures
        pair_accel(bi, bj, k) == 0,
        pair_accel(bj, bi, k) == 0,
{
    lemma_trunc_props(0, UM_PER_M as int);
    assert(pair_d_m(bi, bj, 0) == 0);
    assert(pair_d_m(bi, bj, 1) == 0);
    assert(pair_d_m(bi, bj, 2) == 0);
    assert(pair_d_m(bj, bi, 0) == 0);
    assert(pair_d_m(bj, bi, 1) == 0);
    assert(pair_d_m(bj, bi, 2) == 0);
    assert(sq(0) == 0) by (nonlinear_arith);
    assert(pair_d2_m(bi, bj) == 0);
    assert(pair_d2_m(bj, bi) == 0);
}

/// Gravity-exempt asymmetry: a gravity-exempt body contributes exactly zero
/// acceleration to every body of the set, while itself receiving a nonzero
/// acceleration from a massive non-exempt body whenever the pair's ideal
/// acceleration on the chosen axis reaches at least one fixed-point quantum.
pub proof fn lemma_gravity_exempt_asymmetry(s: Seq<Body>, i: int, j: int, k: int)
    requires
        0 <= i < s.len(),
        0 <= j < s.len(),
        i != j,
        0 <= k < 3,
        s[j].no_effect,
        !s[i].no_effect,
        pair_d2_m(s[j], s[i]) != 0,
        pair_d_m(s[j], s[i], k) != 0,
        accel_mag(
            mu_milli(s[i].mass),
            pair_d_m(s[j], s[i], k),
            pair_d2_m(s[j], s[i]),
            sqrt_floor(pair_d2_m(s[j], s[i])),
        ) >= 1,
    ensures
        forall|t: int| 0 <= t < s.len() ==> source_contrib(s, t, j, k) == 0,
        source_contrib(s, j, i, k) != 0,
{
    let d = pair_d_m(s[j], s[i], k);
    let ma = accel_mag(
        mu_milli(s[i].mass),
        d,
        pair_d2_m(s[j], s[i]),
        sqrt_floor(pair_d2_m(s[j], s[i])),
    );
    assert(sgn(d) * ma != 0) by (nonlinear_arith)
        requires
            ma >= 1,
            sgn(d) == 1 || sgn(d) == -1,
    ;
}

/// A body that came out of the position pass is valid: the clamped absolute
/// coordinate is in range and the new offset is canonical.
proof fn lemma_pos_after_valid(s: Seq<Body>, t: int, eff: int)
    requires
        0 <= t < s.len(),
        body_valid(s[t]),
    ensures
        body_valid(body_with_applied_position(s, t, eff)),
{
    let p0 = pos_axis_clamped(
        cell_axis(s[t].cell, 0),
        axis(s[t].offset, 0),
        axis(s[t].velocity.velocity, 0),
        eff,
    );
    let p1 = pos_axis_clamped(
        cell_axis(s[t].cell, 1),
        axis(s[t].offset, 1),
        axis(s[t].velocity.velocity, 1),
        eff,
    );
    let p2 = pos_axis_clamped(
        cell_axis(s[t].cell, 2),
        axis(s[t].offset, 2),
        axis(s[t].velocity.velocity, 2),
        eff,
    );
    crate::grid::lemma_partition(p0);
    crate::grid::lemma_partition(p1);
    crate::grid::lemma_partition(p2);
}

} // verus!
