//! The four stepping schemes that advance one particle under a net force.
//!
//! Every scheme holds the force fixed over the whole step.  A step succeeds
//! only when the new velocity and the new position are still in range;
//! otherwise the particle is left as it was.
use vstd::prelude::*;
use crate::fixed::{div_toward_zero, divide_toward_zero, in_range, magnitude, LIMIT, SCALE};
use crate::particle::{all_valid, Particle};

verus! {

/// The stepping scheme, chosen when a simulation is configured.
#[derive(Debug, Clone, Copy, PartialEq, Eq, Structural)]
pub enum Integrator {
    /// Full kick, then drift with the new velocity.
    Euler,
    /// Half kick, drift, half kick.
    Leapfrog,
    /// Drift with the velocity estimated at half the step, then full kick.
    Midpoint,
    /// Four stages with weights one, two, two, one over six.
    RungeKutta4,
}

/// Forces beyond this magnitude push every particle out of range.
pub const FORCE_CUTOFF: i128 = 0x1_0000_0000_0000_0000_0000;

/// Change of velocity over a whole step: `force * dt / mass`.
pub open spec fn kick(force: int, mass: int, dt: int) -> int {
    div_toward_zero(force * dt, mass)
}

/// Change of velocity over half a step: `force * dt / (2 * mass)`.
pub open spec fn half_kick(force: int, mass: int, dt: int) -> int {
    div_toward_zero(force * dt, 2 * mass)
}

/// Change of position over a whole step at a given velocity.
pub open spec fn drift(velocity: int, dt: int) -> int {
    div_toward_zero(velocity * dt, SCALE as int)
}

/// Velocity along one axis after a step: two half kicks for the leapfrog
/// scheme, one whole kick for the others.  The four stages of the
/// Runge-Kutta scheme all see the same force, so their weighted mean is
/// that one kick.
pub open spec fn next_velocity(
    integrator: Integrator,
    velocity: int,
    force: int,
    mass: int,
    dt: int,
) -> int {
    match integrator {
        Integrator::Leapfrog => velocity + half_kick(force, mass, dt) + half_kick(force, mass, dt),
        _ => velocity + kick(force, mass, dt),
    }
}

/// Position along one axis after a step.  The Euler scheme drifts with the
/// velocity after the kick; the leapfrog and midpoint schemes drift with
/// the velocity after half a kick; the Runge-Kutta scheme drifts with the
/// mean of the velocities at the start, twice at half the step, and at the
/// end, with weights one, two, two and one.
pub open spec fn next_position(
    integrator: Integrator,
    position: int,
    velocity: int,
    force: int,
    mass: int,
    dt: int,
) -> int {
    let mid = velocity + half_kick(force, mass, dt);
    let end = velocity + kick(force, mass, dt);
    match integrator {
        Integrator::Euler => position + drift(end, dt),
        Integrator::Leapfrog => position + drift(mid, dt),
        Integrator::Midpoint => position + drift(mid, dt),
        Integrator::RungeKutta4 => position + div_toward_zero(
            (velocity + 2 * mid + 2 * mid + end) * dt,
            6 * SCALE,
        ),
    }
}

/// The step along one axis stays in range.
pub open spec fn axis_in_range(
    integrator: Integrator,
    position: int,
    velocity: int,
    force: int,
    mass: int,
    dt: int,
) -> bool {
    in_range(next_velocity(integrator, velocity, force, mass, dt)) && in_range(
        next_position(integrator, position, velocity, force, mass, dt),
    )
}

/// The step of a particle stays in range along both axes.
pub open spec fn step_in_range(
    integrator: Integrator,
    p: Particle,
    force: [i128; 2],
    dt: int,
) -> bool {
    axis_in_range(
        integrator,
        p.position[0] as int,
        p.velocity[0] as int,
        force[0] as int,
        p.mass as int,
        dt,
    ) && axis_in_range(
        integrator,
        p.position[1] as int,
        p.velocity[1] as int,
        force[1] as int,
        p.mass as int,
        dt,
    )
}

/// `q` is `p` after one step under `force`: same mass, and along each axis
/// the velocity and position that the scheme prescribes.
pub open spec fn is_step_of(
    integrator: Integrator,
    p: Particle,
    force: [i128; 2],
    dt: int,
    q: Particle,
) -> bool {
    &&& q.mass == p.mass
    &&& forall|axis: int|
        0 <= axis < 2 ==> {
            &&& #[trigger] q.velocity[axis] == next_velocity(
                integrator,
                p.velocity[axis] as int,
                force[axis] as int,
                p.mass as int,
                dt,
            )
            &&& q.position[axis] == next_position(
                integrator,
                p.position[axis] as int,
                p.velocity[axis] as int,
                force[axis] as int,
                p.mass as int,
                dt,
            )
        }
}

/// A quotient by twice the divisor is no larger than the quotient itself.
proof fn lemma_half_kick_below_kick(force: int, mass: int, dt: int)
    requires
        0 < mass,
    ensures
        magnitude(half_kick(force, mass, dt)) <= magnitude(kick(force, mass, dt)),
        magnitude(kick(force, mass, dt)) <= magnitude(force * dt),
{
    let a = magnitude(force * dt);
    let b = mass;
    assert(0 <= a / (2 * b) <= a / b <= a) by (nonlinear_arith)
        requires
            a >= 0,
            b > 0,
    ;
}

/// A force beyond the cutoff changes the velocity by more than the whole
/// range, whatever the scheme.
proof fn lemma_cutoff_escapes(
    integrator: Integrator,
    position: int,
    velocity: int,
    force: int,
    mass: int,
    dt: int,
)
    requires
        magnitude(force) > FORCE_CUTOFF,
        0 < mass <= LIMIT,
        0 < dt <= LIMIT,
        in_range(velocity),
    ensures
        !axis_in_range(integrator, position, velocity, force, mass, dt),
{
    let a = magnitude(force * dt);
    let b = 2 * mass;
    assert(a == magnitude(force) * dt) by (nonlinear_arith)
        requires
            a == magnitude(force * dt),
            dt > 0,
    ;
    assert(a >= FORCE_CUTOFF) by (nonlinear_arith)
        requires
            a == magnitude(force) * dt,
            magnitude(force) > FORCE_CUTOFF,
            dt >= 1,
    ;
    assert(0 < b <= 0x400_0000_0000);
    assert(a / b >= 0x40_0000_0000) by (nonlinear_arith)
        requires
            a >= 0x1_0000_0000_0000_0000_0000,
            0 < b <= 0x400_0000_0000,
    ;
    assert(magnitude(half_kick(force, mass, dt)) == a / b);
    lemma_half_kick_below_kick(force, mass, dt);
}

/// Computes `a * dt / den`, rounded toward zero.
fn scaled(a: i128, dt: i64, den: i128) -> (q: i128)
    requires
        -0x1_0000_0000_0000_0000_0000 <= a <= 0x1_0000_0000_0000_0000_0000,
        0 < dt <= LIMIT,
        0 < den,
    ensures
        q == div_toward_zero(a * dt, den as int),
        magnitude(q as int) <= magnitude(a * dt),
{
    assert(-(0x1_0000_0000_0000_0000_0000 * 0x8000_0000) <= a * dt <= 0x1_0000_0000_0000_0000_0000
        * 0x8000_0000) by (nonlinear_arith)
        requires
            -0x1_0000_0000_0000_0000_0000 <= a <= 0x1_0000_0000_0000_0000_0000,
            0 < dt <= 0x8000_0000,
    ;
    let prod: i128 = a * (dt as i128);
    proof {
        let m = magnitude(prod as int);
        assert(0 <= m / (den as int) <= m) by (nonlinear_arith)
            requires
                m >= 0,
                den > 0,
        ;
    }
    divide_toward_zero(prod, den)
}

/// Advances one axis, or tells that the result would leave the range.
fn advance_axis(
    position: i64,
    velocity: i64,
    force: i128,
    mass: i64,
    dt: i64,
    integrator: Integrator,
) -> (next: Option<(i64, i64)>)
    requires
        in_range(position as int),
        in_range(velocity as int),
        0 < mass <= LIMIT,
        0 < dt <= LIMIT,
    ensures
        next.is_some() == axis_in_range(
            integrator,
            position as int,
            velocity as int,
            force as int,
            mass as int,
            dt as int,
        ),
        next.is_some() ==> next.unwrap().0 == next_position(
            integrator,
            position as int,
            velocity as int,
            force as int,
            mass as int,
            dt as int,
        ) && next.unwrap().1 == next_velocity(
            integrator,
            velocity as int,
            force as int,
            mass as int,
            dt as int,
        ),
{
    if force > FORCE_CUTOFF || force < -FORCE_CUTOFF {
        proof {
            lemma_cutoff_escapes(
                integrator,
                position as int,
                velocity as int,
                force as int,
                mass as int,
                dt as int,
            );
        }
        return None;
    }
    let unit: i128 = mass as i128;
    let whole: i128 = scaled(force, dt, unit);
    let half: i128 = scaled(force, dt, 2 * unit);
    proof {
        lemma_half_kick_below_kick(force as int, mass as int, dt as int);
        assert(magnitude(force * dt) <= 0x1_0000_0000_0000_0000_0000 * 0x8000_0000)
            by (nonlinear_arith)
            requires
                -0x1_0000_0000_0000_0000_0000 <= force <= 0x1_0000_0000_0000_0000_0000,
                0 < dt <= 0x8000_0000,
        ;
    }
    let end: i128 = velocity as i128 + whole;
    let new_velocity: i128 = match integrator {
        Integrator::Leapfrog => velocity as i128 + half + half,
        _ => end,
    };
    if new_velocity > LIMIT as i128 || new_velocity < -(LIMIT as i128) {
        return None;
    }
    // The new velocity is in range, so the kicks are a few ranges at most.
    assert(-0x2_0000_0000 <= half <= 0x2_0000_0000);
    let mid: i128 = velocity as i128 + half;
    let carried: i128 = match integrator {
        Integrator::Euler => end,
        Integrator::Leapfrog => mid,
        Integrator::Midpoint => mid,
        Integrator::RungeKutta4 => velocity as i128 + 2 * mid + 2 * mid + end,
    };
    let span: i128 = match integrator {
        Integrator::RungeKutta4 => 6 * (SCALE as i128),
        _ => SCALE as i128,
    };
    let moved: i128 = scaled(carried, dt, span);
    assert(magnitude(carried * dt) <= 0x40_0000_0000 * 0x8000_0000) by (nonlinear_arith)
        requires
            -0x40_0000_0000 <= carried <= 0x40_0000_0000,
            0 < dt <= 0x8000_0000,
    ;
    let new_position: i128 = position as i128 + moved;
    if new_position > LIMIT as i128 || new_position < -(LIMIT as i128) {
        return None;
    }
    Some((new_position as i64, new_velocity as i64))
}

/// Computes the particle after one step under `force`, or `None` when the
/// step would leave the range.
pub fn advanced(p: &Particle, force: &[i128; 2], dt: i64, integrator: Integrator) -> (next: Option<
    Particle,
>)
    requires
        p.valid(),
        0 < dt <= LIMIT,
    ensures
        next.is_some() == step_in_range(integrator, *p, *force, dt as int),
        next.is_some() ==> is_step_of(integrator, *p, *force, dt as int, next.unwrap())
            && next.unwrap().valid(),
{
    let along_x = advance_axis(p.position[0], p.velocity[0], force[0], p.mass, dt, integrator);
    let along_y = advance_axis(p.position[1], p.velocity[1], force[1], p.mass, dt, integrator);
    match (along_x, along_y) {
        (Some((x, vx)), Some((y, vy))) => {
            let q = Particle { position: [x, y], velocity: [vx, vy], mass: p.mass };
            Some(q)
        },
        _ => None,
    }
}

/// Advances `particle` by one step of length `dt` under the net force
/// `force`, with the scheme `integrator`.
///
/// Returns `true` and updates the particle when the new velocity and
/// position are in range; returns `false` and leaves it untouched otherwise.
pub fn time_integration(
    particle: &mut Particle,
    force: &[i128; 2],
    dt: i64,
    integrator: Integrator,
) -> (moved: bool)
    requires
        old(particle).valid(),
        0 < dt <= LIMIT,
    ensures
        moved == step_in_range(integrator, *old(particle), *force, dt as int),
        moved ==> is_step_of(integrator, *old(particle), *force, dt as int, *final(particle))
            && final(particle).valid(),
        !moved ==> *final(particle) == *old(particle),
{
    match advanced(particle, force, dt, integrator) {
        Some(q) => {
            *particle = q;
            true
        },
        None => false,
    }
}

/// `next` holds, for every particle, the outcome of one step under its own
/// force: the advanced particle, or nothing when the step would leave the
/// range.
pub open spec fn outcomes_of(
    next: Seq<Option<Particle>>,
    ps: Seq<Particle>,
    forces: Seq<[i128; 2]>,
    dt: int,
    integrator: Integrator,
) -> bool {
    &&& next.len() == ps.len()
    &&& forall|k: int|
        0 <= k < ps.len() ==> {
            &&& (#[trigger] next[k]).is_some() == step_in_range(integrator, ps[k], forces[k], dt)
            &&& next[k].is_some() ==> is_step_of(integrator, ps[k], forces[k], dt, next[k].unwrap())
                && next[k].unwrap().valid()
        }
}

/// Advances every particle under its own force, one after the other.
pub fn advance_each(
    particles: &Vec<Particle>,
    forces: &Vec<[i128; 2]>,
    dt: i64,
    integrator: Integrator,
) -> (next: Vec<Option<Particle>>)
    requires
        all_valid(particles@),
        forces@.len() == particles@.len(),
        0 < dt <= LIMIT,
    ensures
        outcomes_of(next@, particles@, forces@, dt as int, integrator),
{
    let n = particles.len();
    let mut next: Vec<Option<Particle>> = Vec::new();
    let mut k: usize = 0;
    while k < n
        invariant
            k <= n,
            n == particles@.len(),
            forces@.len() == n,
            all_valid(particles@),
            0 < dt <= LIMIT,
            next@.len() == k,
            forall|m: int|
                0 <= m < k ==> {
                    &&& (#[trigger] next@[m]).is_some() == step_in_range(
                        integrator,
                        particles@[m],
                        forces@[m],
                        dt as int,
                    )
                    &&& next@[m].is_some() ==> is_step_of(
                        integrator,
                        particles@[m],
                        forces@[m],
                        dt as int,
                        next@[m].unwrap(),
                    ) && next@[m].unwrap().valid()
                },
        decreases n - k,
    {
        let outcome = advanced(&particles[k], &forces[k], dt, integrator);
        next.push(outcome);
        k += 1;
    }
    next
}

} // verus!
