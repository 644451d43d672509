use solarsim::common_math::{
    distance2, distance2_squared, distance3, distance3_squared, isqrt_u128,
};
use solarsim::physics_math::{double, single};

#[test]
fn distance2_squared_exact() {
    assert_eq!(distance2_squared(0, 0, 3, 4), 25);
    assert_eq!(distance2_squared(-3, -4, 0, 0), 25);
    assert_eq!(distance2(0, 0, 3, 4), 5);
    // non-square distance takes the floor
    assert_eq!(distance2(0, 0, 1, 1), 1);
}

#[test]
fn distance3_squared_exact() {
    assert_eq!(distance3_squared(0, 0, 0, 1, 2, 2), 9);
    assert_eq!(distance3(0, 0, 0, 1, 2, 2), 3);
    assert_eq!(distance3(1, 1, 1, 1, 1, 1), 0);
}

#[test]
fn distance3_interplanetary() {
    // 1e12 m along x in micrometers
    let d = distance3(0, 0, 0, 1_000_000_000_000_000_000, 0, 0);
    assert_eq!(d, 1_000_000_000_000_000_000);
}

#[test]
fn isqrt_edges() {
    assert_eq!(isqrt_u128(0), 0);
    assert_eq!(isqrt_u128(1), 1);
    assert_eq!(isqrt_u128(3), 1);
    assert_eq!(isqrt_u128(4), 2);
    assert_eq!(isqrt_u128(u128::MAX), u64::MAX);
}

#[test]
fn single_force_exact() {
    // masses of 1000 quanta (1e17 kg) at 10 m^2: 66743 * 1e6 / 10
    assert_eq!(single::compute_gravitational_force2(1000, 1000, 10), 6_674_300_000);
    assert_eq!(
        single::compute_gravitational_force(1000, 1000, 100),
        66_743 * 1_000_000 / 10_000
    );
}

#[test]
fn double_force_sun_earth() {
    // Sun (1.989e30 kg) and Earth (5.9722e24 kg) one astronomical unit apart.
    let sun: u128 = 19_890_000_000_000_000;
    let earth: u128 = 59_722_000_000;
    let d: u128 = 149_600_000_000;
    let f = double::compute_gravitational_force2(sun, earth, d * d);
    assert_eq!(f, 3_542_514_714);
    // cross-check the fixed-point value against the floating formula
    let f_newton = f as f64 * 1e13;
    let expected = 6.67430e-11 * 1.989e30 * 5.9722e24 / (1.496e11f64 * 1.496e11);
    assert!((f_newton - expected).abs() / expected < 1e-6);
}

#[test]
fn double_force_symmetric() {
    let a: u128 = 123_456_789_000;
    let b: u128 = 987_654_321;
    let d2: u128 = 1_000_003;
    assert_eq!(
        double::compute_gravitational_force2(a, b, d2),
        double::compute_gravitational_force2(b, a, d2)
    );
}
