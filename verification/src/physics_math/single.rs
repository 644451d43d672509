//! Coarse 64-bit variant of the gravitation formulas.  The narrower width
//! bounds the admissible mass product; the 128-bit variant in the sibling
//! module lifts that bound.

use vstd::prelude::*;

verus! {

use crate::physics_math::{grav_force_spec, GRAVITATIONAL_CONSTANT_SCALED};

/// Largest mass product (in squared quanta of 1e14 kg) the 64-bit width admits.
pub const MASS_PRODUCT_LIMIT: u64 = 276_000_000_000_000;

/// Computes the gravitational force between two objects from the squared
/// distance, in quanta of 1e13 N (masses in quanta of 1e14 kg, distance
/// squared in square meters).
pub fn compute_gravitational_force2(mass_a: u64, mass_b: u64, distance_squared: u64) -> (r: u64)
    requires
        0 < distance_squared,
        mass_a * mass_b <= MASS_PRODUCT_LIMIT,
    ensures
        r == grav_force_spec(mass_a as int, mass_b as int, distance_squared as int),
{
    proof {
        assert(GRAVITATIONAL_CONSTANT_SCALED * (mass_a * mass_b)
            <= GRAVITATIONAL_CONSTANT_SCALED * MASS_PRODUCT_LIMIT) by (nonlinear_arith)
            requires
                mass_a * mass_b <= MASS_PRODUCT_LIMIT,
        ;
        assert(GRAVITATIONAL_CONSTANT_SCALED * mass_a * mass_b
            == GRAVITATIONAL_CONSTANT_SCALED * (mass_a * mass_b)) by (nonlinear_arith);
    }
    let product: u64 = mass_a * mass_b;
    (GRAVITATIONAL_CONSTANT_SCALED * product) / distance_squared
}

/// Computes the gravitational force between two objects from the distance,
/// in quanta of 1e13 N (masses in quanta of 1e14 kg, distance in meters).
pub fn compute_gravitational_force(mass_a: u64, mass_b: u64, distance: u64) -> (r: u64)
    requires
        0 < distance,
        distance * distance <= u64::MAX,
        mass_a * mass_b <= MASS_PRODUCT_LIMIT,
    ensures
        r == grav_force_spec(mass_a as int, mass_b as int, (distance * distance) as int),
{
    proof {
        assert(0 < distance * distance) by (nonlinear_arith)
            requires
                0 < distance,
        ;
    }
    compute_gravitational_force2(mass_a, mass_b, distance * distance)
}

} // verus!
