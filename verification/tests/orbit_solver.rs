use solarsim::orbit::Orbit;
use solarsim::solarsystem::Mass;
use solarsim::trig::{atan2_fx, cos_fx, sin_fx, sqrt_fx, HALF_PI_NANO, NANO, PI_NANO};

const SUN_QUANTA: u64 = 19_890_000_000_000_000; // 1.989e30 kg

fn earth_orbit() -> Orbit {
    Orbit::new(149_600_000_000, 16_700_000, 0, 0, 0)
}

#[test]
fn trig_fixed_point_values() {
    assert_eq!(sin_fx(0), 0);
    assert_eq!(cos_fx(0), NANO);
    // sin(pi/2) and cos(pi/2) at fixed-point resolution
    assert!((sin_fx(HALF_PI_NANO) - NANO).abs() < 1_000);
    assert!(cos_fx(HALF_PI_NANO).abs() < 1_000);
    // sin(pi/6) = 1/2
    assert!((sin_fx(523_598_776) - 500_000_000).abs() < 1_000);
    // cos(pi) = -1
    assert!((cos_fx(PI_NANO) + NANO).abs() < 1_000);
    // odd symmetry at a sample point
    assert_eq!(sin_fx(300_000_000), -sin_fx(-300_000_000));
    // a large angle: sin(1000 rad) = 0.8268795...
    let s = sin_fx(1_000_000_000_000);
    assert!((s as f64 / 1e9 - 0.826_879_5).abs() < 1e-4);
}

#[test]
fn sqrt_and_atan2_fixed_point() {
    assert_eq!(sqrt_fx(NANO), NANO);
    assert_eq!(sqrt_fx(0), 0);
    // sqrt(2) scaled
    assert!((sqrt_fx(2 * NANO) - 1_414_213_562).abs() <= 1);
    // atan2 quadrants
    assert_eq!(atan2_fx(0, NANO), 0);
    assert_eq!(atan2_fx(0, -NANO), PI_NANO);
    assert!((atan2_fx(NANO, 0) - HALF_PI_NANO).abs() < 1_000);
    assert!((atan2_fx(-NANO, 0) + HALF_PI_NANO).abs() < 1_000);
    // atan2(1, 1) = pi/4
    assert!((atan2_fx(NANO, NANO) - 785_398_163).abs() < 1_000);
    // atan2(1, -1) = 3*pi/4
    assert!((atan2_fx(NANO, -NANO) - 2_356_194_490).abs() < 1_000);
}

#[test]
fn orbital_period_of_earth() {
    // a = 1.496e11 m, M = 1.989e30 kg: the period must be about 365.25 days.
    let orbit = earth_orbit();
    let mass = Mass::new(SUN_QUANTA);
    let t = orbit.period_s(&mass);
    assert_eq!(t, 31_554_181);
    let reference = 31_557_600.0_f64;
    assert!((t as f64 - reference).abs() / reference < 1e-3);
}

#[test]
fn position_at_time_zero_is_periapsis() {
    // The propagator starts at periapsis: at t = 0 the radius is a*(1 - e).
    let orbit = earth_orbit();
    let mass = Mass::new(SUN_QUANTA);
    let (x, y, nu) = orbit.position(0, &mass);
    let r_m = ((x as f64).hypot(y as f64)) / 1e6;
    let periapsis = 1.496e11 * (1.0 - 0.0167);
    assert!((r_m - periapsis).abs() / periapsis < 1e-4);
    // true anomaly is essentially zero
    assert!(nu.abs() < 2_000_000); // < 0.002 rad
}

fn kepler_f64(e: f64, m: f64) -> f64 {
    let mut big_e = m + e * m.cos();
    for _ in 0..64 {
        let f = big_e - e * big_e.sin() - m;
        if f.abs() < 1e-12 {
            break;
        }
        big_e -= f / (1.0 - e * big_e.cos());
    }
    big_e
}

#[test]
fn position_quarter_period_matches_reference_formulas() {
    let orbit = earth_orbit();
    let mass = Mass::new(SUN_QUANTA);
    let t = orbit.period_s(&mass) / 4;
    let (x, y, _nu) = orbit.position(t, &mass);
    // reference computation in double precision
    let a = 1.496e11_f64;
    let e = 0.0167_f64;
    let period = orbit.period_s(&mass) as f64;
    let m_anom = 2.0 * std::f64::consts::PI * (t as f64) / period;
    let big_e = kepler_f64(e, m_anom);
    let nu_ref = 2.0
        * ((1.0 + e).sqrt() * (big_e / 2.0).sin()).atan2((1.0 - e).sqrt() * (big_e / 2.0).cos());
    let r_ref = a * (1.0 - e * e) / (1.0 + e * nu_ref.cos());
    let x_ref = r_ref * nu_ref.cos();
    let y_ref = r_ref * nu_ref.sin();
    let xm = x as f64 / 1e6;
    let ym = y as f64 / 1e6;
    assert!((xm - x_ref).abs() / a < 1e-3, "x {} vs {}", xm, x_ref);
    assert!((ym - y_ref).abs() / a < 1e-3, "y {} vs {}", ym, y_ref);
}

#[test]
fn radius_stays_within_conic_bounds_over_an_orbit() {
    let orbit = earth_orbit();
    let mass = Mass::new(SUN_QUANTA);
    let period = orbit.period_s(&mass);
    let a = 1.496e11_f64;
    let e = 0.0167_f64;
    for k in 0..12 {
        let t = period * k / 12;
        let (x, y, _) = orbit.position(t, &mass);
        let r_m = (x as f64).hypot(y as f64) / 1e6;
        assert!(r_m >= a * (1.0 - e) * 0.999);
        assert!(r_m <= a * (1.0 + e) * 1.001);
    }
}

#[test]
fn position_repeats_after_whole_periods() {
    // The mean anomaly is not wrapped; after two whole periods plus a
    // quarter, the position agrees with the quarter-period one.
    let orbit = earth_orbit();
    let mass = Mass::new(SUN_QUANTA);
    let period = orbit.period_s(&mass);
    let (x1, y1, _) = orbit.position(period / 4, &mass);
    let (x2, y2, _) = orbit.position(2 * period + period / 4, &mass);
    let a_um = 1.496e17_f64;
    assert!(((x1 - x2).abs() as f64) / a_um < 1e-3);
    assert!(((y1 - y2).abs() as f64) / a_um < 1e-3);
}

#[test]
fn eccentric_anomaly_satisfies_kepler_equation() {
    let orbit = earth_orbit();
    let m_anom: i64 = 2_500_000_000; // 2.5 rad
    let big_e = orbit.eccentric_anomaly(m_anom);
    let e = 0.0167_f64;
    let ef = big_e as f64 / 1e9;
    let residual = ef - e * ef.sin() - m_anom as f64 / 1e9;
    // the solver stops below its nanoradian tolerance, up to trig rounding
    assert!(residual.abs() < 2e-6, "residual {}", residual);
}

#[test]
fn position_checked_domain() {
    let mass = Mass::new(SUN_QUANTA);
    let good = earth_orbit();
    assert_eq!(good.position_checked(1000, &mass), Some(good.position(1000, &mass)));
    // eccentricity of a parabola is rejected
    let parabolic = Orbit::new(149_600_000_000, 1_000_000_000, 0, 0, 0);
    assert_eq!(parabolic.position_checked(0, &mass), None);
    // a massless primary is rejected
    assert_eq!(good.position_checked(0, &Mass::new(0)), None);
    // a non-positive semi-major axis is rejected
    let degenerate = Orbit::new(0, 0, 0, 0, 0);
    assert_eq!(degenerate.position_checked(0, &mass), None);
}
