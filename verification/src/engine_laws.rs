//! What holds of every step of the engine: the pairwise forces cancel, a
//! leapfrog step nearly conserves momentum, and the parallel path agrees
//! with the sequential one.
use vstd::prelude::*;
use crate::fixed::{div_toward_zero, magnitude};
use crate::forces::{gravity, lemma_gravity_antisymmetric, PAIR_FORCE_LIMIT};
use crate::integrator::{half_kick, is_step_of, step_in_range, Integrator};
use crate::pairwise::{
    lemma_count_fits, lemma_gravity_self_zero, lemma_pull_sum_bounded, net_force, pull_sum,
};
use crate::particle::{all_valid, Particle};
use crate::simulation::{is_step_of_all, step_force, Algorithm, Simulation};

verus! {

/// Sum over the first `count` particles of what each of them exerts on
/// particle `j`.
pub open spec fn column_sum(ps: Seq<Particle>, j: int, count: int, axis: int) -> int
    decreases count,
{
    if count <= 0 {
        0
    } else {
        column_sum(ps, j, count - 1, axis) + gravity(ps[count - 1], ps[j], axis)
    }
}

/// Sum over the first `count` particles of the force that the first
/// `width` particles exert on each of them.
pub open spec fn forces_total(ps: Seq<Particle>, count: int, width: int, axis: int) -> int
    decreases count,
{
    if count <= 0 {
        0
    } else {
        forces_total(ps, count - 1, width, axis) + pull_sum(ps, count - 1, 0, width, axis)
    }
}

/// Sum of the masses of the first `count` particles.
pub open spec fn total_mass(ps: Seq<Particle>, count: int) -> int
    decreases count,
{
    if count <= 0 {
        0
    } else {
        total_mass(ps, count - 1) + ps[count - 1].mass
    }
}

/// Sum of mass times velocity over the first `count` particles.
pub open spec fn momentum(ps: Seq<Particle>, count: int, axis: int) -> int
    decreases count,
{
    if count <= 0 {
        0
    } else {
        momentum(ps, count - 1, axis) + ps[count - 1].mass * ps[count - 1].velocity[axis]
    }
}

/// What a group of particles exerts on one particle is the opposite of
/// what that particle exerts on the group.
proof fn lemma_column_is_opposite(ps: Seq<Particle>, j: int, count: int, axis: int)
    requires
        axis == 0 || axis == 1,
        0 <= count,
    ensures
        column_sum(ps, j, count, axis) == -pull_sum(ps, j, 0, count, axis),
    decreases count,
{
    if count > 0 {
        lemma_column_is_opposite(ps, j, count - 1, axis);
        lemma_gravity_antisymmetric(ps[count - 1], ps[j], axis);
    }
}

/// Widening the group that pulls by one particle adds what that particle
/// exerts on everyone.
proof fn lemma_widen(ps: Seq<Particle>, count: int, width: int, axis: int)
    requires
        0 <= count,
        0 <= width,
    ensures
        forces_total(ps, count, width + 1, axis) == forces_total(ps, count, width, axis)
            + column_sum(ps, width, count, axis),
    decreases count,
{
    if count > 0 {
        lemma_widen(ps, count - 1, width, axis);
    }
}

/// The forces that the first `m` particles exert on one another add up to
/// nothing.
proof fn lemma_group_forces_cancel(ps: Seq<Particle>, m: int, axis: int)
    requires
        axis == 0 || axis == 1,
        0 <= m,
    ensures
        forces_total(ps, m, m, axis) == 0,
    decreases m,
{
    if m > 0 {
        lemma_group_forces_cancel(ps, m - 1, axis);
        lemma_widen(ps, m - 1, m - 1, axis);
        lemma_column_is_opposite(ps, m - 1, m - 1, axis);
        lemma_gravity_self_zero(ps[m - 1], axis);
    }
}

/// The net forces on all particles of a system add up to nothing: what
/// every pair exchanges cancels.
pub proof fn lemma_net_forces_cancel(ps: Seq<Particle>, axis: int)
    requires
        axis == 0 || axis == 1,
    ensures
        forces_total(ps, ps.len() as int, ps.len() as int, axis) == 0,
{
    lemma_group_forces_cancel(ps, ps.len() as int, axis);
}

/// A quotient rounded toward zero, times the divisor, misses the dividend
/// by less than the divisor.
proof fn lemma_rounding_error(a: int, b: int)
    requires
        b > 0,
    ensures
        -b < b * div_toward_zero(a, b) - a < b,
{
    let m = magnitude(a);
    let q = m / b;
    assert(0 <= m - b * q < b) by (nonlinear_arith)
        requires
            m >= 0,
            b > 0,
            q == m / b,
    ;
    if a < 0 {
        assert(b * (-q) == -(b * q)) by (nonlinear_arith);
    }
}

/// The momentum that the first `count` particles gain in a leapfrog step
/// misses the time step times the sum of their forces by at most twice
/// their mass.
proof fn lemma_leapfrog_gain(
    ps: Seq<Particle>,
    qs: Seq<Particle>,
    algorithm: Algorithm,
    theta: Option<i64>,
    dt: int,
    axis: int,
    count: int,
)
    requires
        axis == 0 || axis == 1,
        all_valid(ps),
        ps.len() <= usize::MAX,
        0 < dt,
        0 <= count <= ps.len(),
        algorithm != Algorithm::BarnesHut,
        is_step_of_all(ps, algorithm, Integrator::Leapfrog, theta, dt, qs),
    ensures
        magnitude(
            (momentum(qs, count, axis) - momentum(ps, count, axis)) - dt * forces_total(
                ps,
                count,
                ps.len() as int,
                axis,
            ),
        ) <= 2 * total_mass(ps, count),
        0 <= total_mass(ps, count),
    decreases count,
{
    if count > 0 {
        let k = count - 1;
        lemma_leapfrog_gain(ps, qs, algorithm, theta, dt, axis, k);
        let n = ps.len() as int;
        let p = ps[k];
        let q = qs[k];
        let m = p.mass as int;
        let force = net_force(ps, k, axis);
        lemma_pull_sum_bounded(ps, k, 0, n, axis);
        lemma_count_fits(n);
        assert(n * PAIR_FORCE_LIMIT == (n - 0) * PAIR_FORCE_LIMIT);
        assert(force as i128 == force);
        let given: [i128; 2] = [
            step_force(ps, algorithm, theta, k, 0) as i128,
            step_force(ps, algorithm, theta, k, 1) as i128,
        ];
        assert(is_step_of(Integrator::Leapfrog, p, given, dt, q));
        assert(given[axis] == force);
        let hk = half_kick(force, m, dt);
        assert(q.velocity[axis] == p.velocity[axis] + hk + hk);
        assert(q.mass == p.mass);
        let a = force * dt;
        let b = 2 * m;
        lemma_rounding_error(a, b);
        let v0 = p.velocity[axis] as int;
        let v1 = q.velocity[axis] as int;
        let gain = m * v1 - m * v0;
        assert(gain == b * hk) by (nonlinear_arith)
            requires
                gain == m * v1 - m * v0,
                v1 == v0 + hk + hk,
                b == 2 * m,
        ;
        let before = (momentum(qs, k, axis) - momentum(ps, k, axis)) - dt * forces_total(
            ps,
            k,
            n,
            axis,
        );
        let after = (momentum(qs, count, axis) - momentum(ps, count, axis)) - dt * forces_total(
            ps,
            count,
            n,
            axis,
        );
        assert(after == before + gain - a) by (nonlinear_arith)
            requires
                before == (momentum(qs, k, axis) - momentum(ps, k, axis)) - dt * forces_total(
                    ps,
                    k,
                    n,
                    axis,
                ),
                after == (momentum(qs, count, axis) - momentum(ps, count, axis)) - dt
                    * forces_total(ps, count, n, axis),
                momentum(qs, count, axis) == momentum(qs, k, axis) + m * v1,
                momentum(ps, count, axis) == momentum(ps, k, axis) + m * v0,
                forces_total(ps, count, n, axis) == forces_total(ps, k, n, axis) + force,
                gain == m * v1 - m * v0,
                a == force * dt,
        ;
    } else {
        assert(dt * forces_total(ps, count, ps.len() as int, axis) == 0) by (nonlinear_arith)
            requires
                forces_total(ps, count, ps.len() as int, axis) == 0,
        ;
    }
}

/// Momentum is nearly conserved: one leapfrog step under the exact
/// pairwise forces changes the total momentum of an isolated system by no
/// more than twice its total mass, the trace of rounding every kick toward
/// zero.
pub proof fn lemma_leapfrog_conserves_momentum(
    ps: Seq<Particle>,
    qs: Seq<Particle>,
    algorithm: Algorithm,
    theta: Option<i64>,
    dt: int,
    axis: int,
)
    requires
        axis == 0 || axis == 1,
        all_valid(ps),
        ps.len() <= usize::MAX,
        0 < dt,
        algorithm != Algorithm::BarnesHut,
        is_step_of_all(ps, algorithm, Integrator::Leapfrog, theta, dt, qs),
    ensures
        magnitude(
            momentum(qs, ps.len() as int, axis) - momentum(ps, ps.len() as int, axis),
        ) <= 2 * total_mass(ps, ps.len() as int),
        total_mass(qs, ps.len() as int) == total_mass(ps, ps.len() as int),
{
    let n = ps.len() as int;
    lemma_leapfrog_gain(ps, qs, algorithm, theta, dt, axis, n);
    lemma_net_forces_cancel(ps, axis);
    assert(dt * forces_total(ps, n, n, axis) == 0) by (nonlinear_arith)
        requires
            forces_total(ps, n, n, axis) == 0,
    ;
    lemma_mass_kept(ps, qs, algorithm, theta, dt, n);
}

/// A step keeps the mass of every particle, and so the total.
proof fn lemma_mass_kept(
    ps: Seq<Particle>,
    qs: Seq<Particle>,
    algorithm: Algorithm,
    theta: Option<i64>,
    dt: int,
    count: int,
)
    requires
        0 <= count <= ps.len(),
        is_step_of_all(ps, algorithm, Integrator::Leapfrog, theta, dt, qs),
    ensures
        total_mass(qs, count) == total_mass(ps, count),
    decreases count,
{
    if count > 0 {
        lemma_mass_kept(ps, qs, algorithm, theta, dt, count - 1);
        let k = count - 1;
        assert(is_step_of(
            Integrator::Leapfrog,
            ps[k],
            [
                step_force(ps, algorithm, theta, k, 0) as i128,
                step_force(ps, algorithm, theta, k, 1) as i128,
            ],
            dt,
            qs[k],
        ));
    }
}

/// Every state of the history but the last is followed by what one
/// leapfrog step under the exact pairwise forces makes of it.
pub open spec fn is_leapfrog_run(
    history: Seq<Seq<Particle>>,
    algorithm: Algorithm,
    theta: Option<i64>,
    dt: int,
) -> bool {
    &&& algorithm != Algorithm::BarnesHut
    &&& forall|i: int|
        0 <= i < history.len() ==> all_valid(#[trigger] history[i]) && history[i].len()
            <= usize::MAX
    &&& forall|i: int|
        0 <= i < history.len() - 1 ==> is_step_of_all(
            #[trigger] history[i],
            algorithm,
            Integrator::Leapfrog,
            theta,
            dt,
            history[i + 1],
        )
}

/// Over any number of leapfrog steps the total momentum of an isolated
/// system drifts from its first value by no more than twice the total mass
/// for every step taken.
pub proof fn lemma_leapfrog_drift(
    history: Seq<Seq<Particle>>,
    algorithm: Algorithm,
    theta: Option<i64>,
    dt: int,
    axis: int,
    steps: int,
)
    requires
        axis == 0 || axis == 1,
        0 < dt,
        0 <= steps < history.len(),
        is_leapfrog_run(history, algorithm, theta, dt),
    ensures
        history[steps].len() == history[0].len(),
        total_mass(history[steps], history[0].len() as int) == total_mass(
            history[0],
            history[0].len() as int,
        ),
        magnitude(
            momentum(history[steps], history[0].len() as int, axis) - momentum(
                history[0],
                history[0].len() as int,
                axis,
            ),
        ) <= 2 * steps * total_mass(history[0], history[0].len() as int),
    decreases steps,
{
    let n = history[0].len() as int;
    let mass = total_mass(history[0], n);
    if steps > 0 {
        lemma_leapfrog_drift(history, algorithm, theta, dt, axis, steps - 1);
        let ps = history[steps - 1];
        let qs = history[steps];
        assert(is_step_of_all(ps, algorithm, Integrator::Leapfrog, theta, dt, qs));
        lemma_leapfrog_conserves_momentum(ps, qs, algorithm, theta, dt, axis);
        assert(2 * steps * mass == 2 * (steps - 1) * mass + 2 * mass) by (nonlinear_arith);
    } else {
        assert(2 * steps * mass == 0) by (nonlinear_arith)
            requires
                steps == 0,
        ;
    }
}

/// The parallel path agrees with the sequential one: from the same
/// particles, time step and stepping scheme, a step with the pairs spread
/// over workers and a step that visits them one after the other succeed
/// together and leave the same particles.
pub proof fn lemma_parallel_agrees_with_sequential(
    seq_before: Simulation,
    seq_after: Simulation,
    seq_advanced: bool,
    par_before: Simulation,
    par_after: Simulation,
    par_advanced: bool,
)
    requires
        seq_before.simulation_type == Algorithm::DirectSum,
        par_before.simulation_type == Algorithm::DirectSumParallel,
        seq_before.particles@ == par_before.particles@,
        seq_before.dt == par_before.dt,
        seq_before.integrator_type == par_before.integrator_type,
        seq_after.stepped_from(seq_before, seq_advanced),
        par_after.stepped_from(par_before, par_advanced),
    ensures
        seq_advanced == par_advanced,
        seq_after.particles@ == par_after.particles@,
{
    let ps = seq_before.particles@;
    let dt = seq_before.dt as int;
    let scheme = seq_before.integrator_type;
    assert forall|k: int| 0 <= k < ps.len() implies step_in_range(
        scheme,
        #[trigger] ps[k],
        [
            step_force(ps, Algorithm::DirectSum, seq_before.theta, k, 0) as i128,
            step_force(ps, Algorithm::DirectSum, seq_before.theta, k, 1) as i128,
        ],
        dt,
    ) == step_in_range(
        scheme,
        ps[k],
        [
            step_force(ps, Algorithm::DirectSumParallel, par_before.theta, k, 0) as i128,
            step_force(ps, Algorithm::DirectSumParallel, par_before.theta, k, 1) as i128,
        ],
        dt,
    ) by {}
    if seq_advanced {
        let a = seq_after.particles@;
        let b = par_after.particles@;
        assert forall|k: int| 0 <= k < ps.len() implies a[k] == b[k] by {
            assert(is_step_of(
                scheme,
                ps[k],
                [
                    step_force(ps, Algorithm::DirectSum, seq_before.theta, k, 0) as i128,
                    step_force(ps, Algorithm::DirectSum, seq_before.theta, k, 1) as i128,
                ],
                dt,
                a[k],
            ));
            assert(is_step_of(
                scheme,
                ps[k],
                [
                    step_force(ps, Algorithm::DirectSumParallel, par_before.theta, k, 0) as i128,
                    step_force(ps, Algorithm::DirectSumParallel, par_before.theta, k, 1) as i128,
                ],
                dt,
                b[k],
            ));
            assert(a[k].velocity[0] == b[k].velocity[0]);
            assert(a[k].velocity[1] == b[k].velocity[1]);
            assert(a[k].position[0] == b[k].position[0]);
            assert(a[k].position[1] == b[k].position[1]);
            assert(a[k].velocity =~= b[k].velocity);
            assert(a[k].position =~= b[k].position);
        }
        assert(a =~= b);
    }
}

} // verus!
