//! The elastic collision resolver and the fixed-point arithmetic it
//! rests on, checked on concrete values.

use brick_dungeon::collision::{
    accumulate_contact_force, accumulate_contacts, apply_elastic_force, ball_out_of_bounds,
    combine_coefficients, free_flight_step, ContactManifold, ContactRecord, OriginalVel,
    TargetForce, Velocity,
};
use brick_dungeon::fixed::{fdiv, fmul, isqrt, vec_len, Vec2};

fn v(x: i64, y: i64) -> Vec2 {
    Vec2 { x, y }
}

#[test]
fn fixed_point_products_truncate_towards_zero() {
    assert_eq!(fmul(1500, 2500), 3750);
    assert_eq!(fmul(-1500, 2500), -3750);
    assert_eq!(fmul(1, 1), 0);
    assert_eq!(fmul(-1, 1), 0);
    assert_eq!(fmul(1999, 1), 1);
    assert_eq!(fmul(-1999, 1), -1);
    assert_eq!(fdiv(1000, 3), 333333);
    assert_eq!(fdiv(-1000, 3), -333333);
    assert_eq!(fdiv(1000, 1000), 1000);
}

#[test]
fn integer_square_roots_round_down() {
    assert_eq!(isqrt(0), 0);
    assert_eq!(isqrt(1), 1);
    assert_eq!(isqrt(2), 1);
    assert_eq!(isqrt(3), 1);
    assert_eq!(isqrt(4), 2);
    assert_eq!(isqrt(999_999), 999);
    assert_eq!(isqrt(1_000_000), 1000);
    assert_eq!(isqrt(1_000_000_000_000_000_000), 1_000_000_000);
    assert_eq!(isqrt(u64::MAX), 4_294_967_295);
}

#[test]
fn vector_length_matches_the_euclidean_norm() {
    assert_eq!(vec_len(&v(3000, 4000)), 5000);
    assert_eq!(vec_len(&v(-3000, 4000)), 5000);
    assert_eq!(vec_len(&v(0, 0)), 0);
    assert_eq!(vec_len(&v(100_000, 0)), 100_000);
    // 1^2 + 1^2 = 2, whose root rounds down to 1.
    assert_eq!(vec_len(&v(1, 1)), 1);
}

#[test]
fn example_scenario_produces_the_expected_impulses() {
    // Ball velocity (100, 0), no spin, contact depth 2.0, normal (0, 1),
    // friction 0.5, restitution 1.0, mass 1.0, timestep 0.016,
    // stiffness 1000.
    let mut force = TargetForce(v(0, 0));
    accumulate_contact_force(&mut force, 2000, v(0, 1000));
    // F_pending = 2000 along (0, 1).
    assert_eq!(force.0, v(0, 2_000_000));

    let mut velocity = Velocity { linvel: v(100_000, 0), angvel: 0 };
    let contact = ContactRecord {
        depth: 2000,
        normal: v(0, 1000),
        friction: 500,
        restitution: 1000,
        other_velocity: Velocity { linvel: v(0, 0), angvel: 0 },
        ball_mass: 1000,
    };
    apply_elastic_force(&mut velocity, &mut force, &contact, 16);
    // J_n = 1.0 * 2000 * 0.016 = 32; J_t = (0.8, 0);
    // v = (100, 0) + (-10 * 0.8 + 0, 32) / 1 = (92, 32).
    assert_eq!(velocity.linvel, v(92_000, 32_000));
    // The pending force was consumed.
    assert_eq!(force.0, v(0, 0));
    // Spin-up: |J_t| = 0.8 against the relative motion, then damping.
    assert_eq!(velocity.angvel, -790);
}

#[test]
fn zero_friction_changes_spin_only_through_damping() {
    let mut force = TargetForce(v(0, 1_000_000));
    let mut velocity = Velocity { linvel: v(100_000, 0), angvel: 500_000 };
    let contact = ContactRecord {
        depth: 1000,
        normal: v(0, 1000),
        friction: 0,
        restitution: 1000,
        other_velocity: Velocity { linvel: v(0, 0), angvel: 0 },
        ball_mass: 1000,
    };
    apply_elastic_force(&mut velocity, &mut force, &contact, 16);
    // No tangential impulse at all: the linear velocity only gains the
    // normal impulse 1.0 * 1000 * 0.016 = 16.
    assert_eq!(velocity.linvel, v(100_000, 16_000));
    // The spin only decays: 500 - 0.8 * 500 * 0.016 = 493.6.
    assert_eq!(velocity.angvel, 493_600);
}

#[test]
fn simultaneous_contacts_accumulate_their_spring_forces() {
    // Two manifolds of depths 0.7 and 1.3 sharing the normal (0, 1)
    // accumulate k * (0.7 + 1.3) = 2000 of force — a sum, not a maximum.
    let mut force = TargetForce(v(0, 0));
    let manifolds = vec![
        ContactManifold { depth: 700, normal: v(0, 1000) },
        ContactManifold { depth: 1300, normal: v(0, 1000) },
    ];
    accumulate_contacts(&mut force, &manifolds);
    assert_eq!(force.0, v(0, 2_000_000));

    // Opposing normals cancel instead.
    let mut force2 = TargetForce(v(0, 0));
    let manifolds2 = vec![
        ContactManifold { depth: 500, normal: v(0, 1000) },
        ContactManifold { depth: 500, normal: v(0, -1000) },
    ];
    accumulate_contacts(&mut force2, &manifolds2);
    assert_eq!(force2.0, v(0, 0));
}

#[test]
fn free_flight_renormalizes_to_the_launch_speed() {
    // A spinless ball flying at (300, 400) — speed 500 — with a launch
    // speed of 500 keeps its speed exactly.
    let mut velocity = Velocity { linvel: v(300_000, 400_000), angvel: 0 };
    let original = OriginalVel(Velocity { linvel: v(500_000, 0), angvel: 0 });
    free_flight_step(&mut velocity, &original, 16);
    assert_eq!(velocity.linvel, v(300_000, 400_000));
    assert_eq!(vec_len(&velocity.linvel), 500_000);
    assert_eq!(velocity.angvel, 0);

    // A slowed-down ball is pushed back up to the launch speed.
    let mut velocity2 = Velocity { linvel: v(150_000, 200_000), angvel: 0 };
    free_flight_step(&mut velocity2, &original, 16);
    assert_eq!(velocity2.linvel, v(300_000, 400_000));
    assert_eq!(vec_len(&velocity2.linvel), 500_000);
}

#[test]
fn a_ball_at_rest_stays_at_rest_in_free_flight() {
    // Renormalizing a zero velocity leaves it zero, and with zero speed
    // even a spinning ball feels no Magnus force.
    let mut velocity = Velocity { linvel: v(0, 0), angvel: 700_000 };
    let original = OriginalVel(Velocity { linvel: v(500_000, 0), angvel: 0 });
    free_flight_step(&mut velocity, &original, 16);
    assert_eq!(velocity.linvel, v(0, 0));
    // Damping still applies: 700 - 0.8 * 700 * 0.016 = 691.04.
    assert_eq!(velocity.angvel, 691_040);
}

#[test]
fn magnus_force_curves_a_spinning_ball() {
    // A ball spinning at 1000 rad/s moving at 100 units/s is pushed
    // along the negative x axis by the Magnus force.
    let mut velocity = Velocity { linvel: v(100_000, 0), angvel: 1_000_000 };
    let original = OriginalVel(Velocity { linvel: v(100_000, 0), angvel: 0 });
    free_flight_step(&mut velocity, &original, 100);
    assert_eq!(velocity.linvel, v(-244_940, 0));
    // The spin decays exponentially: 1000 - 0.8 * 1000 * 0.1 = 920.
    assert_eq!(velocity.angvel, 920_000);
}

#[test]
fn surface_coefficients_combine_by_arithmetic_mean() {
    assert_eq!(combine_coefficients(1000, 0), 500);
    assert_eq!(combine_coefficients(500, 1000), 750);
    assert_eq!(combine_coefficients(0, 0), 0);
    // Truncation on an odd sum.
    assert_eq!(combine_coefficients(500, 0), 250);
    assert_eq!(combine_coefficients(1, 0), 0);
}

#[test]
fn balls_despawn_outside_the_arena() {
    assert!(!ball_out_of_bounds(v(0, 0)));
    assert!(ball_out_of_bounds(v(-640_001, 0)));
    assert!(ball_out_of_bounds(v(640_001, 0)));
    assert!(ball_out_of_bounds(v(0, 360_001)));
    // The dead zone extends 100 units below the floor.
    assert!(!ball_out_of_bounds(v(0, -459_999)));
    assert!(ball_out_of_bounds(v(0, -460_001)));
}
