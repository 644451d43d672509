//! Newtonian gravitation formulas in two explicit integer widths: a coarse
//! 64-bit path and the 128-bit path used next to the coordinate model.  Both
//! compute the force `G * m_a * m_b / d^2` at fixed-point resolution.
//!
//! Units shared by both widths: masses count quanta of 1e14 kg, distances are
//! in meters, and the returned force counts quanta of 1e13 N.  With those
//! units the gravitational constant G = 6.67430e-11 m^3 kg^-1 s^-2 scales to
//! the exact integer 66743.

use vstd::prelude::*;

pub mod single;
pub mod double;

verus! {

/// The gravitational constant, scaled to the fixed-point units above:
/// G * (1e14 kg)^2 / (1e13 N * 1 m^2) = 66743 exactly.
pub const GRAVITATIONAL_CONSTANT_SCALED: u64 = 66743;

/// Fixed-point gravitational force: floor of `G * m_a * m_b / d^2` in the
/// units above.  Both widths compute exactly this value.
pub open spec fn grav_force_spec(mass_a: int, mass_b: int, distance_squared: int) -> int {
    (GRAVITATIONAL_CONSTANT_SCALED * mass_a * mass_b) / distance_squared
}

} // verus!
