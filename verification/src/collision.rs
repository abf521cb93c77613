//! The elastic collision response and spin model for balls.
//!
//! While a ball overlaps another collider, every contact manifold adds a
//! spring-like restoring force proportional to its penetration depth into
//! the ball's pending-force slot. When the contacts are resolved, the
//! pending force drives the normal impulse, the tangential relative
//! velocity drives a Coulomb-like friction impulse and a spin-up, and the
//! slot is cleared. While no contact is active, the ball's speed is
//! renormalized to its launch speed and a Magnus force curves its path
//! according to its spin.
//!
//! All quantities are fixed-point milli-units (`1000` is `1.0`).

use crate::fixed::{
    div_fp, fdiv, fmul, len2, lemma_div_fp_bound, lemma_mul_fp_bound, lemma_sqrt_floor_bounds,
    lemma_tdiv_bound, lemma_tdiv_exact, mul_div, mul_fp, tdiv, vec_len, Vec2, SCALE,
};
use vstd::prelude::*;

verus! {

/// Stiffness of the restoring spring (`1000.0`).
pub const STIFFNESS: i64 = 1_000_000;

/// Density of the surrounding fluid (`1.83`).
pub const FLUID_DENSITY: i64 = 1830;

/// Strength of the Magnus effect (`0.3`).
pub const MAGNUS_COEFFICIENT: i64 = 300;

/// Exponential damping of angular velocity (`0.8`).
pub const DAMPING_COEFFICIENT: i64 = 800;

/// Extra scale applied to the Magnus force (`0.001`).
pub const MAGNUS_SCALE: i64 = 1;

/// The circle constant in milli-units, rounded to nearest.
pub const PI_MILLI: i64 = 3142;

/// Diameter of a ball (`40.0`).
pub const BRICK_BALL_SIZE: i64 = 40_000;

/// Radius of a ball (`20.0`).
pub const BRICK_BALL_RADIUS: i64 = 20_000;

/// Mass of a ball (`1.0`).
pub const BRICK_BALL_MASS: i64 = 1000;

/// Angular inertia of a ball (`0.3`).
pub const BRICK_BALL_ANGULAR_INERTIAL: i64 = 300;

/// Width of the arena window (`1280.0`).
pub const WINDOW_WIDTH: i64 = 1_280_000;

/// Height of the arena window (`720.0`).
pub const WINDOW_HEIGHT: i64 = 720_000;

/// Largest velocity component the resolver accepts (`1000.0` units/s).
pub const VEL_LIMIT: i64 = 1_000_000;

/// Largest angular velocity the resolver accepts.
pub const ANGVEL_LIMIT: i64 = 1_000_000_000;

/// Largest pending-force component the resolver accepts.
pub const FORCE_LIMIT: i64 = 1_000_000_000;

/// Largest penetration depth the resolver accepts (`1000.0`).
pub const DEPTH_LIMIT: i64 = 1_000_000;

/// Largest friction or restitution coefficient the resolver accepts
/// (`100.0`).
pub const COEFF_LIMIT: i64 = 100_000;

/// Largest ball mass the resolver accepts (`10.0`).
pub const MASS_LIMIT: i64 = 10_000;

/// Largest timestep the resolver accepts (`0.1` s).
pub const DT_LIMIT: i64 = 100;

/// Linear and angular velocity of a rigid body.
#[derive(Clone, Copy, Debug, PartialEq, Eq, Structural)]
pub struct Velocity {
    pub linvel: Vec2,
    pub angvel: i64,
}

/// The accumulated spring force pending on a ball, cleared after each
/// resolution pass.
#[derive(Clone, Copy, Debug, PartialEq, Eq, Structural)]
pub struct TargetForce(pub Vec2);

/// The velocity a ball was launched with; its magnitude is the speed that
/// free flight renormalizes to.
#[derive(Clone, Copy, Debug, PartialEq, Eq, Structural)]
pub struct OriginalVel(pub Velocity);

/// One contact manifold reported for a ball this tick.
#[derive(Clone, Copy, Debug, PartialEq, Eq, Structural)]
pub struct ContactManifold {
    /// Penetration depth, non-negative.
    pub depth: i64,
    /// Contact normal, a unit vector pointing away from the ball.
    pub normal: Vec2,
}

/// Everything the resolution phase needs to know about one contact:
/// the manifold geometry, the combined surface coefficients, the other
/// body's velocity and the ball's mass.
#[derive(Clone, Copy, Debug, PartialEq, Eq, Structural)]
pub struct ContactRecord {
    pub depth: i64,
    pub normal: Vec2,
    pub friction: i64,
    pub restitution: i64,
    pub other_velocity: Velocity,
    pub ball_mass: i64,
}

/// Bounds under which every intermediate of the resolver fits its machine
/// type.
pub open spec fn velocity_wf(v: Velocity) -> bool {
    &&& -VEL_LIMIT <= v.linvel.x <= VEL_LIMIT
    &&& -VEL_LIMIT <= v.linvel.y <= VEL_LIMIT
    &&& -ANGVEL_LIMIT <= v.angvel <= ANGVEL_LIMIT
}

pub open spec fn manifold_wf(m: ContactManifold) -> bool {
    &&& 0 <= m.depth <= DEPTH_LIMIT
    &&& -SCALE <= m.normal.x <= SCALE
    &&& -SCALE <= m.normal.y <= SCALE
}

pub open spec fn force_wf(f: Vec2) -> bool {
    &&& -FORCE_LIMIT <= f.x <= FORCE_LIMIT
    &&& -FORCE_LIMIT <= f.y <= FORCE_LIMIT
}

pub open spec fn contact_wf(c: ContactRecord) -> bool {
    &&& manifold_wf(ContactManifold { depth: c.depth, normal: c.normal })
    &&& 0 <= c.friction <= COEFF_LIMIT
    &&& 0 <= c.restitution <= COEFF_LIMIT
    &&& velocity_wf(c.other_velocity)
    &&& 1 <= c.ball_mass <= MASS_LIMIT
}

/// The spring contribution of one manifold along one normal component:
/// `depth * STIFFNESS * n`, in fixed point.
pub open spec fn spring_term(depth: int, n: int) -> int {
    mul_fp(mul_fp(depth, STIFFNESS as int), n)
}

/// The fixed-point spring term is exact: no rounding occurs, because the
/// stiffness constant is a whole multiple of the scale.
pub proof fn lemma_spring_term_exact(depth: int, n: int)
    ensures
        spring_term(depth, n) == depth * n,
{
    assert(depth * (STIFFNESS as int) == (depth * 1000) * 1000) by (nonlinear_arith);
    lemma_tdiv_exact(depth * 1000, 1000);
    assert(mul_fp(depth, STIFFNESS as int) == depth * 1000);
    assert((depth * 1000) * n == (depth * n) * 1000) by (nonlinear_arith);
    lemma_tdiv_exact(depth * n, 1000);
    assert(mul_fp(depth * 1000, n) == depth * n);
}

/// The sum of the penetration depths of a sequence of manifolds.
pub open spec fn depth_sum(ms: Seq<ContactManifold>) -> int
    decreases ms.len(),
{
    if ms.len() == 0 {
        0
    } else {
        depth_sum(ms.drop_last()) + ms.last().depth
    }
}

/// Adds one manifold's spring contribution `depth * STIFFNESS * normal`
/// into the ball's pending-force slot.
pub fn accumulate_contact_force(target_force: &mut TargetForce, depth: i64, normal: Vec2)
    requires
        0 <= depth <= DEPTH_LIMIT,
        -SCALE <= normal.x <= SCALE,
        -SCALE <= normal.y <= SCALE,
        -FORCE_LIMIT <= old(target_force).0.x + depth * normal.x <= FORCE_LIMIT,
        -FORCE_LIMIT <= old(target_force).0.y + depth * normal.y <= FORCE_LIMIT,
    ensures
        final(target_force).0.x == old(target_force).0.x + spring_term(depth as int, normal.x as int),
        final(target_force).0.y == old(target_force).0.y + spring_term(depth as int, normal.y as int),
        final(target_force).0.x == old(target_force).0.x + depth * normal.x,
        final(target_force).0.y == old(target_force).0.y + depth * normal.y,
{
    proof {
        lemma_spring_term_exact(depth as int, normal.x as int);
        lemma_spring_term_exact(depth as int, normal.y as int);
        lemma_mul_fp_bound(depth as int, STIFFNESS as int, DEPTH_LIMIT as int, STIFFNESS as int);
        lemma_mul_fp_bound(
            mul_fp(depth as int, STIFFNESS as int),
            normal.x as int,
            (DEPTH_LIMIT as int) * 1000,
            SCALE as int,
        );
        lemma_mul_fp_bound(
            mul_fp(depth as int, STIFFNESS as int),
            normal.y as int,
            (DEPTH_LIMIT as int) * 1000,
            SCALE as int,
        );
    }
    let scaled: i64 = fmul(depth, STIFFNESS);
    let fx: i64 = fmul(scaled, normal.x);
    let fy: i64 = fmul(scaled, normal.y);
    target_force.0.x = target_force.0.x + fx;
    target_force.0.y = target_force.0.y + fy;
}

/// Runs the contact phase of one tick: every active manifold adds its
/// spring contribution into the pending-force slot before any impulse is
/// applied.
pub fn accumulate_contacts(target_force: &mut TargetForce, manifolds: &Vec<ContactManifold>)
    requires
        forall|i: int| 0 <= i < manifolds@.len() ==> manifold_wf(#[trigger] manifolds@[i]),
        manifolds@.len() <= 100,
        -FORCE_LIMIT / 2 <= old(target_force).0.x <= FORCE_LIMIT / 2,
        -FORCE_LIMIT / 2 <= old(target_force).0.y <= FORCE_LIMIT / 2,
        depth_sum(manifolds@) * SCALE <= FORCE_LIMIT / 2,
    ensures
        final(target_force).0.x == old(target_force).0.x + spring_sum_x(manifolds@),
        final(target_force).0.y == old(target_force).0.y + spring_sum_y(manifolds@),
{
    let ghost orig = *target_force;
    let mut i: usize = 0;
    while i < manifolds.len()
        invariant
            0 <= i <= manifolds@.len(),
            manifolds@.len() <= 100,
            forall|k: int| 0 <= k < manifolds@.len() ==> manifold_wf(#[trigger] manifolds@[k]),
            depth_sum(manifolds@) * SCALE <= FORCE_LIMIT / 2,
            -FORCE_LIMIT / 2 <= orig.0.x <= FORCE_LIMIT / 2,
            -FORCE_LIMIT / 2 <= orig.0.y <= FORCE_LIMIT / 2,
            target_force.0.x == orig.0.x + spring_sum_x(manifolds@.take(i as int)),
            target_force.0.y == orig.0.y + spring_sum_y(manifolds@.take(i as int)),
        decreases manifolds@.len() - i,
    {
        proof {
            let t1 = manifolds@.take(i + 1);
            assert(t1.drop_last() =~= manifolds@.take(i as int));
            assert(forall|k: int| 0 <= k < t1.len() ==> manifold_wf(#[trigger] t1[k]));
            lemma_depth_sum_take_le(manifolds@, i + 1);
            lemma_spring_sum_abs(t1);
            lemma_depth_sum_nonneg(manifolds@);
            assert(depth_sum(t1) * SCALE <= depth_sum(manifolds@) * SCALE) by (nonlinear_arith)
                requires
                    depth_sum(t1) <= depth_sum(manifolds@),
            ;
            lemma_spring_term_exact(manifolds@[i as int].depth as int, manifolds@[i as int].normal.x as int);
            lemma_spring_term_exact(manifolds@[i as int].depth as int, manifolds@[i as int].normal.y as int);
        }
        let m = manifolds[i];
        accumulate_contact_force(target_force, m.depth, m.normal);
        i = i + 1;
    }
    proof {
        assert(manifolds@.take(manifolds@.len() as int) =~= manifolds@);
    }
}

/// The summed spring contribution of a sequence of manifolds along x.
pub open spec fn spring_sum_x(ms: Seq<ContactManifold>) -> int
    decreases ms.len(),
{
    if ms.len() == 0 {
        0
    } else {
        spring_sum_x(ms.drop_last()) + spring_term(ms.last().depth as int, ms.last().normal.x as int)
    }
}

/// The summed spring contribution of a sequence of manifolds along y.
pub open spec fn spring_sum_y(ms: Seq<ContactManifold>) -> int
    decreases ms.len(),
{
    if ms.len() == 0 {
        0
    } else {
        spring_sum_y(ms.drop_last()) + spring_term(ms.last().depth as int, ms.last().normal.y as int)
    }
}

/// The depth sum of well-formed manifolds is non-negative.
proof fn lemma_depth_sum_nonneg(ms: Seq<ContactManifold>)
    requires
        forall|k: int| 0 <= k < ms.len() ==> manifold_wf(#[trigger] ms[k]),
    ensures
        depth_sum(ms) >= 0,
    decreases ms.len(),
{
    if ms.len() > 0 {
        assert(forall|k: int|
            0 <= k < ms.drop_last().len() ==> manifold_wf(#[trigger] ms.drop_last()[k]));
        lemma_depth_sum_nonneg(ms.drop_last());
    }
}

/// A prefix of well-formed manifolds contributes no more depth than the
/// whole sequence.
proof fn lemma_depth_sum_take_le(ms: Seq<ContactManifold>, i: int)
    requires
        0 <= i <= ms.len(),
        forall|k: int| 0 <= k < ms.len() ==> manifold_wf(#[trigger] ms[k]),
    ensures
        0 <= depth_sum(ms.take(i)) <= depth_sum(ms),
    decreases ms.len(),
{
    if i == ms.len() {
        assert(ms.take(i) =~= ms);
        lemma_depth_sum_nonneg(ms);
    } else {
        assert(forall|k: int|
            0 <= k < ms.drop_last().len() ==> manifold_wf(#[trigger] ms.drop_last()[k]));
        lemma_depth_sum_take_le(ms.drop_last(), i);
        assert(ms.drop_last().take(i) =~= ms.take(i));
    }
}

/// The summed spring contribution is bounded by the summed depth times
/// the scale, because every normal component is at most one unit long.
proof fn lemma_spring_sum_abs(ms: Seq<ContactManifold>)
    requires
        forall|k: int| 0 <= k < ms.len() ==> manifold_wf(#[trigger] ms[k]),
    ensures
        -(depth_sum(ms) * SCALE) <= spring_sum_x(ms) <= depth_sum(ms) * SCALE,
        -(depth_sum(ms) * SCALE) <= spring_sum_y(ms) <= depth_sum(ms) * SCALE,
    decreases ms.len(),
{
    if ms.len() == 0 {
    } else {
        assert(forall|k: int|
            0 <= k < ms.drop_last().len() ==> manifold_wf(#[trigger] ms.drop_last()[k]));
        lemma_spring_sum_abs(ms.drop_last());
        let d = ms.last().depth as int;
        let nx = ms.last().normal.x as int;
        let ny = ms.last().normal.y as int;
        lemma_spring_term_exact(d, nx);
        lemma_spring_term_exact(d, ny);
        let dprev = depth_sum(ms.drop_last());
        assert(-(d * 1000) <= d * nx <= d * 1000 && -(d * 1000) <= d * ny <= d * 1000)
            by (nonlinear_arith)
            requires
                0 <= d && -1000 <= nx <= 1000 && -1000 <= ny <= 1000,
        ;
        assert((dprev + d) * 1000 == dprev * 1000 + d * 1000) by (nonlinear_arith);
    }
}

/// The fixed-point dot product of two vectors given by components.
pub open spec fn dot2(ax: int, ay: int, bx: int, by: int) -> int {
    mul_fp(ax, bx) + mul_fp(ay, by)
}

/// The x component of the part of the relative velocity that is
/// tangential to the contact normal.
pub open spec fn tangent_x(vrx: int, vry: int, nx: int, ny: int) -> int {
    vrx - mul_fp(dot2(vrx, vry, nx, ny), nx)
}

/// The y component of the tangential relative velocity.
pub open spec fn tangent_y(vrx: int, vry: int, nx: int, ny: int) -> int {
    vry - mul_fp(dot2(vrx, vry, nx, ny), ny)
}

/// One component of the normal impulse: restitution times the pending
/// spring force times the timestep.
pub open spec fn impulse_n(rest: int, f: int, dt: int) -> int {
    mul_fp(mul_fp(rest, f), dt)
}

/// One component of the tangential impulse: tangential velocity times
/// ball mass times friction times the timestep.
pub open spec fn impulse_t(vt: int, m: int, mu: int, dt: int) -> int {
    mul_fp(mul_fp(mul_fp(vt, m), mu), dt)
}

/// The sense of the spin the tangential impulse imparts, from the sign of
/// the relative horizontal motion.
pub open spec fn spin_sign(vrx: int) -> int {
    if vrx < 0 {
        1
    } else if vrx > 0 {
        -1
    } else {
        0
    }
}

/// One step of exponential angular damping.
pub open spec fn damp_step(w: int, dt: int) -> int {
    w - mul_fp(mul_fp(DAMPING_COEFFICIENT as int, w), dt)
}

/// Runs the resolution phase for one contact: converts the pending spring
/// force and the tangential relative velocity into a normal and a
/// tangential impulse, updates the ball's linear and angular velocity
/// (with the deliberate tenfold tangential amplification), and clears the
/// pending-force slot.
pub fn apply_elastic_force(
    velocity: &mut Velocity,
    target_force: &mut TargetForce,
    contact: &ContactRecord,
    dt: i64,
)
    requires
        velocity_wf(*old(velocity)),
        contact_wf(*contact),
        force_wf(old(target_force).0),
        0 <= dt <= DT_LIMIT,
    ensures
        final(target_force).0 == (Vec2 { x: 0i64, y: 0i64 }),
        final(velocity).linvel.x == old(velocity).linvel.x + div_fp(
            -10 * impulse_t(
                tangent_x(
                    old(velocity).linvel.x - contact.other_velocity.linvel.x,
                    old(velocity).linvel.y - contact.other_velocity.linvel.y,
                    contact.normal.x as int,
                    contact.normal.y as int,
                ),
                contact.ball_mass as int,
                contact.friction as int,
                dt as int,
            ) + impulse_n(contact.restitution as int, old(target_force).0.x as int, dt as int),
            contact.ball_mass as int,
        ),
        final(velocity).linvel.y == old(velocity).linvel.y + div_fp(
            -10 * impulse_t(
                tangent_y(
                    old(velocity).linvel.x - contact.other_velocity.linvel.x,
                    old(velocity).linvel.y - contact.other_velocity.linvel.y,
                    contact.normal.x as int,
                    contact.normal.y as int,
                ),
                contact.ball_mass as int,
                contact.friction as int,
                dt as int,
            ) + impulse_n(contact.restitution as int, old(target_force).0.y as int, dt as int),
            contact.ball_mass as int,
        ),
        final(velocity).angvel == damp_step(
            old(velocity).angvel + div_fp(
                len2(
                    impulse_t(
                        tangent_x(
                            old(velocity).linvel.x - contact.other_velocity.linvel.x,
                            old(velocity).linvel.y - contact.other_velocity.linvel.y,
                            contact.normal.x as int,
                            contact.normal.y as int,
                        ),
                        contact.ball_mass as int,
                        contact.friction as int,
                        dt as int,
                    ),
                    impulse_t(
                        tangent_y(
                            old(velocity).linvel.x - contact.other_velocity.linvel.x,
                            old(velocity).linvel.y - contact.other_velocity.linvel.y,
                            contact.normal.x as int,
                            contact.normal.y as int,
                        ),
                        contact.ball_mass as int,
                        contact.friction as int,
                        dt as int,
                    ),
                ) * spin_sign(old(velocity).linvel.x - contact.other_velocity.linvel.x),
                contact.ball_mass as int,
            ),
            dt as int,
        ),
{
    let nx: i64 = contact.normal.x;
    let ny: i64 = contact.normal.y;
    let m: i64 = contact.ball_mass;
    // Relative velocity of the ball against the other body.
    let vrx: i64 = velocity.linvel.x - contact.other_velocity.linvel.x;
    let vry: i64 = velocity.linvel.y - contact.other_velocity.linvel.y;
    proof {
        lemma_mul_fp_bound(vrx as int, nx as int, 2 * VEL_LIMIT as int, SCALE as int);
        lemma_mul_fp_bound(vry as int, ny as int, 2 * VEL_LIMIT as int, SCALE as int);
    }
    // Tangential part of the relative velocity.
    let dot: i64 = fmul(vrx, nx) + fmul(vry, ny);
    proof {
        lemma_mul_fp_bound(dot as int, nx as int, 4 * VEL_LIMIT as int, SCALE as int);
        lemma_mul_fp_bound(dot as int, ny as int, 4 * VEL_LIMIT as int, SCALE as int);
    }
    let vtx: i64 = vrx - fmul(dot, nx);
    let vty: i64 = vry - fmul(dot, ny);
    // Normal impulse, driven by the accumulated spring force.
    proof {
        lemma_mul_fp_bound(
            contact.restitution as int,
            target_force.0.x as int,
            COEFF_LIMIT as int,
            FORCE_LIMIT as int,
        );
        lemma_mul_fp_bound(
            contact.restitution as int,
            target_force.0.y as int,
            COEFF_LIMIT as int,
            FORCE_LIMIT as int,
        );
    }
    let jn1x: i64 = fmul(contact.restitution, target_force.0.x);
    let jn1y: i64 = fmul(contact.restitution, target_force.0.y);
    proof {
        lemma_mul_fp_bound(jn1x as int, dt as int, 100_000_000_000, DT_LIMIT as int);
        lemma_mul_fp_bound(jn1y as int, dt as int, 100_000_000_000, DT_LIMIT as int);
    }
    let jnx: i64 = fmul(jn1x, dt);
    let jny: i64 = fmul(jn1y, dt);
    // Tangential impulse.
    proof {
        lemma_mul_fp_bound(vtx as int, m as int, 6 * VEL_LIMIT as int, MASS_LIMIT as int);
        lemma_mul_fp_bound(vty as int, m as int, 6 * VEL_LIMIT as int, MASS_LIMIT as int);
    }
    let jt1x: i64 = fmul(vtx, m);
    let jt1y: i64 = fmul(vty, m);
    proof {
        lemma_mul_fp_bound(jt1x as int, contact.friction as int, 60_000_000, COEFF_LIMIT as int);
        lemma_mul_fp_bound(jt1y as int, contact.friction as int, 60_000_000, COEFF_LIMIT as int);
    }
    let jt2x: i64 = fmul(jt1x, contact.friction);
    let jt2y: i64 = fmul(jt1y, contact.friction);
    proof {
        lemma_mul_fp_bound(jt2x as int, dt as int, 6_000_000_000, DT_LIMIT as int);
        lemma_mul_fp_bound(jt2y as int, dt as int, 6_000_000_000, DT_LIMIT as int);
    }
    let jtx: i64 = fmul(jt2x, dt);
    let jty: i64 = fmul(jt2y, dt);
    // Linear velocity update with the tenfold tangential amplification.
    proof {
        lemma_div_fp_bound(-10 * jtx + jnx, m as int, 16_000_000_000);
        lemma_div_fp_bound(-10 * jty + jny, m as int, 16_000_000_000);
    }
    let dvx: i64 = fdiv(-10 * jtx + jnx, m);
    let dvy: i64 = fdiv(-10 * jty + jny, m);
    velocity.linvel.x = velocity.linvel.x + dvx;
    velocity.linvel.y = velocity.linvel.y + dvy;
    // Angular velocity update: spin-up from the tangential impulse, then
    // exponential damping.
    proof {
        assert((jtx as int) * (jtx as int) + (jty as int) * (jty as int) <= u64::MAX)
            by (nonlinear_arith)
            requires
                -600_000_000 <= jtx <= 600_000_000 && -600_000_000 <= jty <= 600_000_000,
        ;
    }
    let jt_len: i64 = vec_len(&Vec2 { x: jtx, y: jty });
    let signed_len: i64 = if vrx < 0 {
        jt_len
    } else if vrx > 0 {
        -jt_len
    } else {
        0
    };
    proof {
        lemma_div_fp_bound(signed_len as int, m as int, 4_294_967_295);
    }
    let spin: i64 = fdiv(signed_len, m);
    let w1: i64 = velocity.angvel + spin;
    proof {
        lemma_mul_fp_bound(DAMPING_COEFFICIENT as int, w1 as int, 800, 4_295_967_296_000);
        lemma_mul_fp_bound(
            mul_fp(DAMPING_COEFFICIENT as int, w1 as int),
            dt as int,
            3_436_773_836_800,
            DT_LIMIT as int,
        );
    }
    velocity.angvel = w1 - fmul(fmul(DAMPING_COEFFICIENT, w1), dt);
    // The pending force has been consumed.
    target_force.0 = Vec2 { x: 0, y: 0 };
}

/// The x component of a velocity renormalized to the launch speed `s0`
/// along its current heading. A ball at rest stays at rest.
pub open spec fn renorm_x(vx: int, vy: int, s0: int) -> int {
    if len2(vx, vy) == 0 {
        0
    } else {
        tdiv(vx * s0, len2(vx, vy))
    }
}

/// The y component of the renormalized velocity.
pub open spec fn renorm_y(vx: int, vy: int, s0: int) -> int {
    if len2(vx, vy) == 0 {
        0
    } else {
        tdiv(vy * s0, len2(vx, vy))
    }
}

/// The horizontal Magnus force on a ball with angular velocity `w` moving
/// at `speed`: fluid density times the circle constant times the opposite
/// spin times the speed times the ball radius times the Magnus strength,
/// scaled down once more.
pub open spec fn magnus_term(w: int, speed: int) -> int {
    mul_fp(
        mul_fp(
            mul_fp(
                mul_fp(mul_fp(mul_fp(FLUID_DENSITY as int, PI_MILLI as int), -w), speed),
                BRICK_BALL_RADIUS as int,
            ),
            MAGNUS_COEFFICIENT as int,
        ),
        MAGNUS_SCALE as int,
    )
}

/// Runs the free-flight phase of one tick for a ball with no active
/// contact: renormalizes the speed to the launch speed (compensating the
/// engine's drag on kinematic bodies), then applies the Magnus force and
/// the angular damping.
pub fn free_flight_step(velocity: &mut Velocity, original: &OriginalVel, dt: i64)
    requires
        velocity_wf(*old(velocity)),
        velocity_wf(original.0),
        0 <= dt <= DT_LIMIT,
    ensures
        ({
            let s0 = len2(original.0.linvel.x as int, original.0.linvel.y as int);
            let v1x = renorm_x(old(velocity).linvel.x as int, old(velocity).linvel.y as int, s0);
            let v1y = renorm_y(old(velocity).linvel.x as int, old(velocity).linvel.y as int, s0);
            let mg = magnus_term(old(velocity).angvel as int, len2(v1x, v1y));
            &&& final(velocity).linvel.x == v1x + mul_fp(mg, dt as int)
            &&& final(velocity).linvel.y == v1y
            &&& final(velocity).angvel == damp_step(old(velocity).angvel as int, dt as int)
        }),
{
    proof {
        let ovx = original.0.linvel.x as int;
        let ovy = original.0.linvel.y as int;
        assert(ovx * ovx + ovy * ovy <= u64::MAX && 0 <= ovx * ovx + ovy * ovy)
            by (nonlinear_arith)
            requires
                -VEL_LIMIT <= ovx <= VEL_LIMIT && -VEL_LIMIT <= ovy <= VEL_LIMIT,
        ;
        let cvx = old(velocity).linvel.x as int;
        let cvy = old(velocity).linvel.y as int;
        assert(cvx * cvx + cvy * cvy <= u64::MAX && 0 <= cvx * cvx + cvy * cvy)
            by (nonlinear_arith)
            requires
                -VEL_LIMIT <= cvx <= VEL_LIMIT && -VEL_LIMIT <= cvy <= VEL_LIMIT,
        ;
        lemma_sqrt_floor_bounds((ovx * ovx + ovy * ovy) as nat);
        lemma_sqrt_floor_bounds((cvx * cvx + cvy * cvy) as nat);
        assert(len2(ovx, ovy) <= 1_414_214) by (nonlinear_arith)
            requires
                len2(ovx, ovy) >= 0 && len2(ovx, ovy) * len2(ovx, ovy) <= ovx * ovx + ovy * ovy
                    && -VEL_LIMIT <= ovx <= VEL_LIMIT && -VEL_LIMIT <= ovy <= VEL_LIMIT,
        ;
    }
    let s0: i64 = vec_len(&original.0.linvel);
    let s: i64 = vec_len(&velocity.linvel);
    if s == 0 {
        velocity.linvel = Vec2 { x: 0, y: 0 };
    } else {
        proof {
            let cvx = old(velocity).linvel.x as int;
            let cvy = old(velocity).linvel.y as int;
            assert(-(s as int) <= cvx <= s as int && -(s as int) <= cvy <= s as int)
                by (nonlinear_arith)
                requires
                    s >= 1 && cvx * cvx + cvy * cvy < (s as int + 1) * (s as int + 1),
            ;
            assert(-((s0 as int) * (s as int)) <= cvx * (s0 as int) <= (s0 as int) * (s as int))
                by (nonlinear_arith)
                requires
                    -(s as int) <= cvx <= s as int && s0 >= 0,
            ;
            assert(-((s0 as int) * (s as int)) <= cvy * (s0 as int) <= (s0 as int) * (s as int))
                by (nonlinear_arith)
                requires
                    -(s as int) <= cvy <= s as int && s0 >= 0,
            ;
            lemma_tdiv_bound(cvx * (s0 as int), s as int, s0 as int);
            lemma_tdiv_bound(cvy * (s0 as int), s as int, s0 as int);
        }
        let v1x: i64 = mul_div(velocity.linvel.x, s0, s);
        let v1y: i64 = mul_div(velocity.linvel.y, s0, s);
        velocity.linvel = Vec2 { x: v1x, y: v1y };
    }
    proof {
        let rvx = velocity.linvel.x as int;
        let rvy = velocity.linvel.y as int;
        assert(rvx * rvx + rvy * rvy <= u64::MAX && 0 <= rvx * rvx + rvy * rvy)
            by (nonlinear_arith)
            requires
                -1_414_214 <= rvx <= 1_414_214 && -1_414_214 <= rvy <= 1_414_214,
        ;
    }
    let speed: i64 = vec_len(&velocity.linvel);
    let w: i64 = velocity.angvel;
    let m1: i64 = fmul(FLUID_DENSITY, PI_MILLI);
    proof {
        lemma_mul_fp_bound(m1 as int, -(w as int), 5750, ANGVEL_LIMIT as int);
    }
    let m2: i64 = fmul(m1, -w);
    proof {
        lemma_mul_fp_bound(m2 as int, speed as int, 5_750_000_000, 4_294_967_295);
    }
    let m3: i64 = fmul(m2, speed);
    proof {
        lemma_mul_fp_bound(m3 as int, BRICK_BALL_RADIUS as int, 25_000_000_000_000_000, 20_000);
    }
    let m4: i64 = fmul(m3, BRICK_BALL_RADIUS);
    proof {
        lemma_mul_fp_bound(m4 as int, MAGNUS_COEFFICIENT as int, 500_000_000_000_000_000, 300);
    }
    let m5: i64 = fmul(m4, MAGNUS_COEFFICIENT);
    proof {
        lemma_mul_fp_bound(m5 as int, MAGNUS_SCALE as int, 150_000_000_000_000_000, 1);
    }
    let m6: i64 = fmul(m5, MAGNUS_SCALE);
    proof {
        lemma_mul_fp_bound(DAMPING_COEFFICIENT as int, w as int, 800, ANGVEL_LIMIT as int);
        lemma_mul_fp_bound(
            mul_fp(DAMPING_COEFFICIENT as int, w as int),
            dt as int,
            800_000_000,
            DT_LIMIT as int,
        );
        lemma_mul_fp_bound(m6 as int, dt as int, 150_000_000_000_000, DT_LIMIT as int);
    }
    velocity.angvel = w - fmul(fmul(DAMPING_COEFFICIENT, w), dt);
    velocity.linvel.x = velocity.linvel.x + fmul(m6, dt);
}

/// Spring-force accumulation: when N simultaneous manifolds share one
/// contact normal, the accumulated pending force is exactly the stiffness
/// times the *sum* of their depths along that normal — a sum, not a
/// maximum or an average.
pub proof fn lemma_spring_force_accumulation(ms: Seq<ContactManifold>, n: Vec2)
    requires
        forall|k: int| 0 <= k < ms.len() ==> (#[trigger] ms[k]).normal == n,
    ensures
        spring_sum_x(ms) == spring_term(depth_sum(ms), n.x as int),
        spring_sum_y(ms) == spring_term(depth_sum(ms), n.y as int),
    decreases ms.len(),
{
    lemma_spring_term_exact(depth_sum(ms), n.x as int);
    lemma_spring_term_exact(depth_sum(ms), n.y as int);
    if ms.len() > 0 {
        assert(forall|k: int|
            0 <= k < ms.drop_last().len() ==> (#[trigger] ms.drop_last()[k]).normal == n);
        lemma_spring_force_accumulation(ms.drop_last(), n);
        assert(ms.last().normal == n);
        let dp = depth_sum(ms.drop_last());
        let d = ms.last().depth as int;
        lemma_spring_term_exact(dp, n.x as int);
        lemma_spring_term_exact(dp, n.y as int);
        lemma_spring_term_exact(d, n.x as int);
        lemma_spring_term_exact(d, n.y as int);
        assert((dp + d) * n.x == dp * n.x + d * n.x) by (nonlinear_arith);
        assert((dp + d) * n.y == dp * n.y + d * n.y) by (nonlinear_arith);
    }
}

/// The tangential impulse with zero friction is exactly zero.
pub proof fn lemma_zero_friction_impulse_t(vt: int, m: int, dt: int)
    ensures
        impulse_t(vt, m, 0, dt) == 0,
{
    let a = mul_fp(vt, m);
    assert(a * 0 == 0);
    assert(tdiv(0, 1000) == 0);
    assert(mul_fp(a, 0) == 0);
    assert(0 * dt == 0);
    assert(mul_fp(0, dt) == 0);
}

/// Impulse symmetry under zero friction: with `friction == 0` the
/// tangential impulse vanishes exactly, so the angular velocity changes
/// only through damping, never through impulse spin-up.
pub proof fn lemma_zero_friction_no_spin_up(
    vrx: int,
    vry: int,
    nx: int,
    ny: int,
    m: int,
    dt: int,
    w: int,
)
    requires
        m >= 1,
    ensures
        impulse_t(tangent_x(vrx, vry, nx, ny), m, 0, dt) == 0,
        impulse_t(tangent_y(vrx, vry, nx, ny), m, 0, dt) == 0,
        damp_step(
            w + div_fp(
                len2(
                    impulse_t(tangent_x(vrx, vry, nx, ny), m, 0, dt),
                    impulse_t(tangent_y(vrx, vry, nx, ny), m, 0, dt),
                ) * spin_sign(vrx),
                m,
            ),
            dt,
        ) == damp_step(w, dt),
{
    lemma_zero_friction_impulse_t(tangent_x(vrx, vry, nx, ny), m, dt);
    lemma_zero_friction_impulse_t(tangent_y(vrx, vry, nx, ny), m, dt);
    assert(len2(0, 0) == 0) by {
        assert(0int * 0int == 0int) by (nonlinear_arith);
        assert(0nat * 0nat == 0nat) by (nonlinear_arith);
        assert((0nat + 1) * (0nat + 1) == 1nat) by (nonlinear_arith);
        crate::fixed::lemma_sqrt_floor_unique(0nat, 0nat);
    };
    assert(len2(0, 0) * spin_sign(vrx) == 0);
    assert(0int * 1000 == 0) by (nonlinear_arith);
    assert(tdiv(0, m) == 0) by {
        assert(0int / m == 0) by (nonlinear_arith)
            requires
                m >= 1,
        ;
    };
    assert(div_fp(0, m) == 0);
}

/// Renormalization restores the launch speed exactly whenever the current
/// speed is exactly representable and divides the scaled components: the
/// renormalized velocity's squared length is exactly the squared launch
/// speed, so its fixed-point length is exactly the launch speed.
pub proof fn lemma_renormalization_preserves_speed(vx: int, vy: int, s0: int)
    requires
        s0 >= 0,
        len2(vx, vy) >= 1,
        vx * vx + vy * vy == len2(vx, vy) * len2(vx, vy),
        (vx * s0) % len2(vx, vy) == 0,
        (vy * s0) % len2(vx, vy) == 0,
    ensures
        renorm_x(vx, vy, s0) * renorm_x(vx, vy, s0) + renorm_y(vx, vy, s0) * renorm_y(vx, vy, s0)
            == s0 * s0,
        len2(renorm_x(vx, vy, s0), renorm_y(vx, vy, s0)) == s0,
{
    let s = len2(vx, vy);
    let q1 = tdiv(vx * s0, s);
    let q2 = tdiv(vy * s0, s);
    crate::fixed::lemma_tdiv_divisible(vx * s0, s);
    crate::fixed::lemma_tdiv_divisible(vy * s0, s);
    assert(q1 * q1 + q2 * q2 == s0 * s0) by (nonlinear_arith)
        requires
            s >= 1,
            s * q1 == vx * s0,
            s * q2 == vy * s0,
            vx * vx + vy * vy == s * s,
    ;
    assert(s0 * s0 >= 0 && s0 * s0 < (s0 + 1) * (s0 + 1)) by (nonlinear_arith)
        requires
            s0 >= 0,
    ;
    assert((s0 as nat) * (s0 as nat) <= (q1 * q1 + q2 * q2) as nat);
    assert(((q1 * q1 + q2 * q2) as nat) < ((s0 as nat) + 1) * ((s0 as nat) + 1));
    crate::fixed::lemma_sqrt_floor_unique((q1 * q1 + q2 * q2) as nat, s0 as nat);
    assert(renorm_x(vx, vy, s0) == q1 && renorm_y(vx, vy, s0) == q2);
}

/// The Magnus force on a ball with no spin is exactly zero.
pub proof fn lemma_zero_spin_magnus(speed: int)
    ensures
        magnus_term(0, speed) == 0,
{
    let m1 = mul_fp(FLUID_DENSITY as int, PI_MILLI as int);
    assert(m1 * 0 == 0);
    assert(tdiv(0, 1000) == 0);
    assert(mul_fp(m1, -0) == 0);
    assert(0 * speed == 0);
    assert(mul_fp(0, speed) == 0);
    assert(0 * (BRICK_BALL_RADIUS as int) == 0);
    assert(mul_fp(0, BRICK_BALL_RADIUS as int) == 0);
    assert(0 * (MAGNUS_COEFFICIENT as int) == 0);
    assert(mul_fp(0, MAGNUS_COEFFICIENT as int) == 0);
    assert(0 * (MAGNUS_SCALE as int) == 0);
    assert(mul_fp(0, MAGNUS_SCALE as int) == 0);
}

/// Energy renormalization: across a free-flight tick of a spinless ball
/// whose speed quantizes exactly, the speed after the tick equals the
/// launch speed exactly — the Magnus force may rotate the heading of a
/// spinning ball, but it never changes the speed of a spinless one, and
/// the renormalization stage pins the speed to the launch speed.
pub proof fn lemma_free_flight_preserves_speed(vx: int, vy: int, s0: int, dt: int)
    requires
        s0 >= 0,
        len2(vx, vy) >= 1,
        vx * vx + vy * vy == len2(vx, vy) * len2(vx, vy),
        (vx * s0) % len2(vx, vy) == 0,
        (vy * s0) % len2(vx, vy) == 0,
    ensures
        ({
            let v1x = renorm_x(vx, vy, s0);
            let v1y = renorm_y(vx, vy, s0);
            let vfx = v1x + mul_fp(magnus_term(0, len2(v1x, v1y)), dt);
            len2(vfx, v1y) == s0
        }),
{
    lemma_renormalization_preserves_speed(vx, vy, s0);
    lemma_zero_spin_magnus(len2(renorm_x(vx, vy, s0), renorm_y(vx, vy, s0)));
    assert(0int * dt == 0);
    assert(tdiv(0, 1000) == 0);
    assert(mul_fp(0, dt) == 0);
}

/// Combines the two colliders' surface coefficients into one by
/// arithmetic mean, as the resolution phase expects.
pub fn combine_coefficients(a: i64, b: i64) -> (r: i64)
    requires
        0 <= a <= COEFF_LIMIT,
        0 <= b <= COEFF_LIMIT,
    ensures
        r == (a + b) / 2,
        0 <= r <= COEFF_LIMIT,
{
    let s: u64 = (a as u64) + (b as u64);
    (s / 2) as i64
}

/// Whether a ball has left the arena and must despawn: out on either
/// side, above the top, or below the dead zone under the floor.
pub fn ball_out_of_bounds(pos: Vec2) -> (r: bool)
    ensures
        r == (pos.x < -(WINDOW_WIDTH / 2) || pos.x > WINDOW_WIDTH / 2 || pos.y > WINDOW_HEIGHT / 2
            || pos.y < -(WINDOW_HEIGHT / 2 + 100_000)),
{
    let half_w: i64 = WINDOW_WIDTH / 2;
    let half_h: i64 = WINDOW_HEIGHT / 2;
    pos.x < -half_w || pos.x > half_w || pos.y > half_h || pos.y < -(half_h + 100_000)
}

} // verus!
