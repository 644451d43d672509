//! 128-bit variant of the gravitation formulas, wide enough for stellar
//! masses at planetary distances.

use vstd::prelude::*;

verus! {

use crate::physics_math::{grav_force_spec, GRAVITATIONAL_CONSTANT_SCALED};

/// Largest mass product (in squared quanta of 1e14 kg) the 128-bit width
/// admits; a pair of several solar masses stays well inside it.
pub const MASS_PRODUCT_LIMIT: u128 = 2_500_000_000_000_000_000_000_000_000_000_000;

/// Computes the gravitational force between two objects from the squared
/// distance, in quanta of 1e13 N (masses in quanta of 1e14 kg, distance
/// squared in square meters).
pub fn compute_gravitational_force2(mass_a: u128, mass_b: u128, distance_squared: u128) -> (r: u128)
    requires
        0 < distance_squared,
        mass_a * mass_b <= MASS_PRODUCT_LIMIT,
    ensures
        r == grav_force_spec(mass_a as int, mass_b as int, distance_squared as int),
{
    proof {
        assert(GRAVITATIONAL_CONSTANT_SCALED * (mass_a * mass_b)
            <= GRAVITATIONAL_CONSTANT_SCALED * MASS_PRODUCT_LIMIT) by (nonlinear_arith)
            requires
                mass_a * mass_b <= MASS_PRODUCT_LIMIT,
        ;
        assert(GRAVITATIONAL_CONSTANT_SCALED * mass_a * mass_b
            == GRAVITATIONAL_CONSTANT_SCALED * (mass_a * mass_b)) by (nonlinear_arith);
    }
    let product: u128 = mass_a * mass_b;
    (GRAVITATIONAL_CONSTANT_SCALED as u128 * product) / distance_squared
}

/// Computes the gravitational force between two objects from the distance,
/// in quanta of 1e13 N (masses in quanta of 1e14 kg, distance in meters).
pub fn compute_gravitational_force(mass_a: u128, mass_b: u128, distance: u128) -> (r: u128)
    requires
        0 < distance,
        distance * distance <= u128::MAX,
        mass_a * mass_b <= MASS_PRODUCT_LIMIT,
    ensures
        r == grav_force_spec(mass_a as int, mass_b as int, (distance * distance) as int),
{
    proof {
        assert(0 < distance * distance) by (nonlinear_arith)
            requires
                0 < distance,
        ;
    }
    compute_gravitational_force2(mass_a, mass_b, distance * distance)
}

/// The fixed-point force is symmetric in the two masses: the magnitude that
/// body a attributes to b equals the magnitude that b attributes to a.
pub proof fn lemma_force_symmetric(mass_a: int, mass_b: int, distance_squared: int)
    ensures
        grav_force_spec(mass_a, mass_b, distance_squared)
            == grav_force_spec(mass_b, mass_a, distance_squared),
{
    assert(GRAVITATIONAL_CONSTANT_SCALED * mass_a * mass_b
        == GRAVITATIONAL_CONSTANT_SCALED * mass_b * mass_a) by (nonlinear_arith);
}

} // verus!
