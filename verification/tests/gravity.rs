use solarsim::grid::{from_grid, to_grid, GridCell, Vec3i};
use solarsim::solarsystem::{Body, BodySet, Mass, Name, SimulationClock, Velocity};

fn body_at(name: &str, mass_quanta: u64, abs_um: Vec3i, vel_um_s: Vec3i, no_effect: bool) -> Body {
    let (cell, offset) = to_grid(abs_um);
    Body {
        name: Name(name.to_string()),
        mass: Mass::new(mass_quanta),
        cell,
        offset,
        velocity: Velocity::new(vel_um_s),
        no_effect,
    }
}

fn abs_of(b: &Body) -> Vec3i {
    from_grid(b.cell, b.offset)
}

const SUN_QUANTA: u64 = 19_890_000_000_000_000; // 1.989e30 kg
const EARTH_QUANTA: u64 = 59_722_000_000; // 5.9722e24 kg

#[test]
fn zero_distance_pair_contributes_nothing() {
    // Two bodies at the identical position (same cell, offset and center of
    // mass): the pair contributes exactly zero, so velocities are unchanged.
    let p = Vec3i::new(123_000_000_000, -55, 7);
    let v = Vec3i::new(10, 20, 30);
    let mut set = BodySet::new();
    set.spawn(body_at("a", SUN_QUANTA, p, v, false));
    set.spawn(body_at("b", SUN_QUANTA, p, v, false));
    let clock = SimulationClock::new(1_000_000, 100);
    set.update_velocities(&clock);
    assert_eq!(set.body(0).velocity.velocity, v);
    assert_eq!(set.body(1).velocity.velocity, v);
}

#[test]
fn gravity_exempt_asymmetry() {
    // A gravity-exempt pebble near a massive body: the pebble is pulled, the
    // massive body feels nothing from it.
    let mut set = BodySet::new();
    set.spawn(body_at("star", SUN_QUANTA, Vec3i::new(0, 0, 0), Vec3i::new(0, 0, 0), false));
    set.spawn(body_at(
        "pebble",
        1,
        Vec3i::new(1_000_000_000_000, 0, 0), // 1e6 m away
        Vec3i::new(0, 0, 0),
        true,
    ));
    let clock = SimulationClock::new(1_000_000, 1); // one simulated second
    set.update_velocities(&clock);
    // the pebble accelerates toward the star (negative x)
    assert!(set.body(1).velocity.velocity.x < 0);
    // the star's velocity is exactly unchanged: its only companion is exempt
    assert_eq!(set.body(0).velocity.velocity, Vec3i::new(0, 0, 0));
}

#[test]
fn acceleration_matches_newton_formula() {
    // a = G*m_source/d^2 for a 2e23 kg source one thousand kilometers away.
    let m_recv = Mass::new(1_000_000_000);
    let m_src = Mass::new(2_000_000_000);
    let zero = Vec3i::new(0, 0, 0);
    let pos_src = Vec3i::new(1_000_000_000_000, 0, 0); // 1e6 m
    let a = m_recv.acceleration(&m_src, zero, pos_src);
    let expected = 6.67430e-11 * 2.0e23 / (1.0e6_f64 * 1.0e6) * 1.0e6; // um/s^2
    let got = a.x as f64;
    assert!(a.x > 0);
    assert_eq!(a.y, 0);
    assert_eq!(a.z, 0);
    assert!((got - expected).abs() / expected < 1e-6);
}

#[test]
fn newton_third_law_numeric() {
    let m1 = Mass::new(1_000_000_000);
    let m2 = Mass::new(3_000_000_000);
    let p1 = Vec3i::new(0, 0, 0);
    let p2 = Vec3i::new(40_000_000_000_000, 30_000_000_000_000, 0);
    let a12 = m1.acceleration(&m2, p1, p2);
    let a21 = m2.acceleration(&m1, p2, p1);
    // antiparallel
    assert!(a12.x > 0 && a21.x < 0);
    assert!(a12.y > 0 && a21.y < 0);
    // mass-weighted magnitudes agree up to fixed-point rounding
    // up to one fixed-point quantum of rounding on each side
    let w1 = a12.x as f64 * 1.0e9;
    let w2 = -a21.x as f64 * 3.0e9;
    assert!((w1 - w2).abs() / w1 < 1e-3);
}

#[test]
fn coincident_masses_acceleration_is_zero() {
    let m = Mass::new(SUN_QUANTA);
    let p = Vec3i::new(5, 5, 5);
    let a = m.acceleration(&m, p, p);
    assert_eq!((a.x, a.y, a.z), (0, 0, 0));
}

#[test]
fn position_pass_rebases_across_cell_boundary() {
    // A body near the cell edge moving outward is re-partitioned: the cell
    // advances and the offset is canonical again.
    let mut set = BodySet::new();
    let b = Body {
        name: Name("walker".to_string()),
        mass: Mass::new(0),
        cell: GridCell::new(0, 0, 0),
        offset: Vec3i::new(4_999_999_000, 0, 0),
        velocity: Velocity::new(Vec3i::new(2_000_000, 0, 0)), // 2 m/s
        no_effect: true,
    };
    set.spawn(b);
    let clock = SimulationClock::new(1_000_000, 1); // one second
    set.apply_positions(&clock);
    assert_eq!(set.body(0).cell.x, 1);
    assert_eq!(set.body(0).offset.x, -4_998_001_000);
    // absolute position advanced by exactly v * dt
    assert_eq!(abs_of(set.body(0)).x, 4_999_999_000 + 2_000_000);
}

#[test]
fn escape_velocity_circular_orbit_keeps_distance() {
    // A body at one astronomical unit with the circular-orbit speed stays at
    // an approximately constant distance over many ticks.
    let d_m: f64 = 1.496e11;
    let v_circ = (6.67430e-11 * 1.989e30 / d_m).sqrt(); // m/s
    let mut set = BodySet::new();
    set.spawn(body_at("sun", SUN_QUANTA, Vec3i::new(0, 0, 0), Vec3i::new(0, 0, 0), false));
    set.spawn(body_at(
        "earth",
        EARTH_QUANTA,
        Vec3i::new(149_600_000_000_000_000, 0, 0),
        Vec3i::new(0, (v_circ * 1e6) as i64, 0),
        false,
    ));
    // 16 ms real frames at 86400x: 1382.4 simulated seconds per tick
    let clock = SimulationClock::new(16_000, 86_400);
    for _ in 0..2000 {
        set.tick(&clock);
    }
    let sun = abs_of(set.body(0));
    let earth = abs_of(set.body(1));
    let dx = (earth.x - sun.x) as f64;
    let dy = (earth.y - sun.y) as f64;
    let dist_m = (dx * dx + dy * dy).sqrt() / 1e6;
    let drift = (dist_m - d_m).abs() / d_m;
    assert!(drift < 0.01, "distance drifted by {}", drift);
    // and the body actually moved along its orbit
    assert!((earth.y - sun.y).abs() > 1_000_000_000_000_000);
}
