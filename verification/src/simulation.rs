//! The engine: owns the particles and the force accumulator, and advances
//! them one step at a time along one of three paths.
use vstd::prelude::*;
use crate::fixed::{in_range, stored_in_range, LIMIT};
use crate::integrator::{advance_each, is_step_of, outcomes_of, step_in_range, Integrator};
use crate::pairwise::{all_zero, net_force, net_forces, zero_sums};
use crate::parallel::{advance_on_workers, parallel_net_forces};
use crate::particle::{all_valid, Particle};
use crate::quadtree::{empty_tree, QuadTree};

verus! {

/// The way the forces of one step are evaluated.
#[derive(Debug, Clone, Copy, PartialEq, Eq, Structural)]
pub enum Algorithm {
    /// Every pair of particles, one after the other.
    DirectSum,
    /// Every pair of particles, spread over the threads of the pool.
    DirectSumParallel,
    /// The quadtree approximation; needs an opening angle.
    BarnesHut,
}

/// Western edge of the rectangle that the quadtree of a step is built over.
pub const WORLD_WEST: i64 = 0;

/// Southern edge of that rectangle.
pub const WORLD_SOUTH: i64 = 0;

/// Eastern edge of that rectangle, 800 units of length from the western.
pub const WORLD_EAST: i64 = 819200;

/// Northern edge of that rectangle, 600 units of length from the southern.
pub const WORLD_NORTH: i64 = 614400;

/// The rectangle that the quadtree of a step is built over.
pub open spec fn world() -> [i64; 4] {
    [WORLD_WEST, WORLD_SOUTH, WORLD_EAST, WORLD_NORTH]
}

/// The tree over the world rectangle after the first `count` particles have
/// been offered to it in order; a particle that the tree does not accept is
/// passed over.
pub open spec fn tree_of(ps: Seq<Particle>, count: int) -> QuadTree
    decreases count,
{
    if count <= 0 {
        empty_tree(world())
    } else {
        let before = tree_of(ps, count - 1);
        if before.accepts(ps[count - 1]) {
            before.inserted(ps[count - 1])
        } else {
            before
        }
    }
}

/// Component `axis` of the force on particle `k` that a step works with.
pub open spec fn step_force(
    ps: Seq<Particle>,
    algorithm: Algorithm,
    theta: Option<i64>,
    k: int,
    axis: int,
) -> int {
    match algorithm {
        Algorithm::BarnesHut => tree_of(ps, ps.len() as int).finalized().force_on(
            ps[k],
            theta.unwrap() as int,
            axis,
        ),
        _ => net_force(ps, k, axis),
    }
}

/// The vector holds the force that a step works with, for every particle.
pub open spec fn forces_are(
    forces: Seq<[i128; 2]>,
    ps: Seq<Particle>,
    algorithm: Algorithm,
    theta: Option<i64>,
) -> bool {
    &&& forces.len() == ps.len()
    &&& forall|k: int|
        0 <= k < ps.len() ==> {
            &&& (#[trigger] forces[k])[0] == step_force(ps, algorithm, theta, k, 0)
            &&& forces[k][1] == step_force(ps, algorithm, theta, k, 1)
        }
}

/// Every particle stays in range when it is advanced under the force that
/// the step works with.
pub open spec fn step_stays_in_range(
    ps: Seq<Particle>,
    algorithm: Algorithm,
    integrator: Integrator,
    theta: Option<i64>,
    dt: int,
) -> bool {
    forall|k: int|
        0 <= k < ps.len() ==> step_in_range(
            integrator,
            #[trigger] ps[k],
            [
                step_force(ps, algorithm, theta, k, 0) as i128,
                step_force(ps, algorithm, theta, k, 1) as i128,
            ],
            dt,
        )
}

/// `qs` holds every particle of `ps` advanced under the force that the step
/// works with.
pub open spec fn is_step_of_all(
    ps: Seq<Particle>,
    algorithm: Algorithm,
    integrator: Integrator,
    theta: Option<i64>,
    dt: int,
    qs: Seq<Particle>,
) -> bool {
    &&& qs.len() == ps.len()
    &&& forall|k: int|
        0 <= k < ps.len() ==> is_step_of(
            integrator,
            ps[k],
            [
                step_force(ps, algorithm, theta, k, 0) as i128,
                step_force(ps, algorithm, theta, k, 1) as i128,
            ],
            dt,
            #[trigger] qs[k],
        )
}

/// A set of particles with the configuration of its steps.
pub struct Simulation {
    pub particles: Vec<Particle>,
    pub total_forces: Vec<[i128; 2]>,
    pub dt: i64,
    pub simulation_type: Algorithm,
    pub integrator_type: Integrator,
    pub theta: Option<i64>,
}

impl Simulation {
    /// The simulation can be stepped: the particles are valid, the
    /// accumulator holds one zero vector per particle, the time step is
    /// positive and in range, and the opening angle is in range and present
    /// when the quadtree is used.
    pub open spec fn valid(&self) -> bool {
        &&& all_valid(self.particles@)
        &&& self.total_forces@.len() == self.particles@.len()
        &&& all_zero(self.total_forces@)
        &&& 0 < self.dt <= LIMIT
        &&& self.simulation_type == Algorithm::BarnesHut ==> self.theta.is_some()
        &&& self.theta.is_some() ==> in_range(self.theta.unwrap() as int)
    }

    /// The simulation is what one step makes of `before`: the configuration
    /// is the same and the simulation can be stepped again; the step is made
    /// exactly when every particle stays in range, and then every particle
    /// has been advanced under the force that the step works with; otherwise
    /// the particles are as they were.
    pub open spec fn stepped_from(&self, before: Simulation, advanced: bool) -> bool {
        &&& self.valid()
        &&& self.dt == before.dt
        &&& self.simulation_type == before.simulation_type
        &&& self.integrator_type == before.integrator_type
        &&& self.theta == before.theta
        &&& advanced == step_stays_in_range(
            before.particles@,
            before.simulation_type,
            before.integrator_type,
            before.theta,
            before.dt as int,
        )
        &&& advanced ==> is_step_of_all(
            before.particles@,
            before.simulation_type,
            before.integrator_type,
            before.theta,
            before.dt as int,
            self.particles@,
        )
        &&& !advanced ==> self.particles@ == before.particles@
    }

    /// Sets up a simulation.  The quadtree path cannot be chosen without an
    /// opening angle.
    pub fn new(
        particles: Vec<Particle>,
        dt: i64,
        simulation_type: Algorithm,
        integrator_type: Integrator,
        theta: Option<i64>,
    ) -> (sim: Self)
        requires
            simulation_type == Algorithm::BarnesHut ==> theta.is_some(),
        ensures
            sim.particles@ == particles@,
            sim.dt == dt,
            sim.simulation_type == simulation_type,
            sim.integrator_type == integrator_type,
            sim.theta == theta,
            sim.total_forces@.len() == particles@.len(),
            all_zero(sim.total_forces@),
            sim.valid() == (all_valid(particles@) && 0 < dt <= LIMIT && (theta.is_some()
                ==> in_range(theta.unwrap() as int))),
    {
        let total_forces = zero_sums(particles.len());
        Simulation { particles, total_forces, dt, simulation_type, integrator_type, theta }
    }

    /// Tells whether the simulation can be stepped.
    pub fn is_valid(&self) -> (ok: bool)
        ensures
            ok == self.valid(),
    {
        if self.dt <= 0 || self.dt > LIMIT {
            return false;
        }
        match self.theta {
            Some(angle) => {
                if !stored_in_range(angle) {
                    return false;
                }
            },
            None => {
                if self.simulation_type == Algorithm::BarnesHut {
                    return false;
                }
            },
        }
        let n = self.particles.len();
        if self.total_forces.len() != n {
            return false;
        }
        let mut k: usize = 0;
        while k < n
            invariant
                k <= n,
                n == self.particles@.len(),
                n == self.total_forces@.len(),
                forall|m: int| 0 <= m < k ==> (#[trigger] self.particles@[m]).valid(),
                forall|m: int|
                    0 <= m < k ==> (#[trigger] self.total_forces@[m])[0] == 0
                        && self.total_forces@[m][1] == 0,
            decreases n - k,
        {
            if !self.particles[k].is_valid() {
                return false;
            }
            let entry = self.total_forces[k];
            if entry[0] != 0 || entry[1] != 0 {
                return false;
            }
            k += 1;
        }
        true
    }

    /// Returns the positions of the particles, in their order.
    pub fn get_particle_positions(&self) -> (positions: Vec<[i64; 2]>)
        ensures
            positions@.len() == self.particles@.len(),
            forall|k: int|
                0 <= k < positions@.len() ==> #[trigger] positions@[k]
                    == self.particles@[k].position,
    {
        let n = self.particles.len();
        let mut positions: Vec<[i64; 2]> = Vec::new();
        let mut k: usize = 0;
        while k < n
            invariant
                k <= n,
                n == self.particles@.len(),
                positions@.len() == k,
                forall|m: int|
                    0 <= m < k ==> #[trigger] positions@[m] == self.particles@[m].position,
            decreases n - k,
        {
            positions.push(self.particles[k].position);
            k += 1;
        }
        positions
    }

    /// Evaluates the forces of a step on every particle, one pair after the
    /// other, and advances the particles.
    fn direct_sum_step(&mut self) -> (advanced: bool)
        requires
            old(self).valid(),
            old(self).simulation_type == Algorithm::DirectSum,
        ensures
            final(self).stepped_from(*old(self), advanced),
    {
        net_forces(&self.particles, &mut self.total_forces);
        let next = advance_each(&self.particles, &self.total_forces, self.dt, self.integrator_type);
        self.finish_step(next)
    }

    /// Evaluates the forces of a step on every particle with the pairs spread
    /// over the threads of the pool, and advances the particles in parallel
    /// too.
    fn direct_sum_parallel_step(&mut self) -> (advanced: bool)
        requires
            old(self).valid(),
            old(self).simulation_type == Algorithm::DirectSumParallel,
        ensures
            final(self).stepped_from(*old(self), advanced),
    {
        parallel_net_forces(&self.particles, &mut self.total_forces);
        let next = advance_on_workers(
            &self.particles,
            &self.total_forces,
            self.dt,
            self.integrator_type,
        );
        self.finish_step(next)
    }

    /// Builds the quadtree over the world rectangle from all particles,
    /// closes it, asks it for the force on every particle, and advances the
    /// particles.
    fn barnes_hut_step(&mut self, theta: i64) -> (advanced: bool)
        requires
            old(self).valid(),
            old(self).simulation_type == Algorithm::BarnesHut,
            old(self).theta == Some(theta),
        ensures
            final(self).stepped_from(*old(self), advanced),
    {
        let n = self.particles.len();
        let ghost ps = self.particles@;
        let bounds: [i64; 4] = [WORLD_WEST, WORLD_SOUTH, WORLD_EAST, WORLD_NORTH];
        assert(bounds =~= world());
        let mut root = QuadTree::new(bounds);
        let mut k: usize = 0;
        while k < n
            invariant
                k <= n,
                n == ps.len(),
                ps == self.particles@,
                all_valid(ps),
                root.is_open(),
                root == tree_of(ps, k as int),
            decreases n - k,
        {
            root.insert(self.particles[k]);
            k += 1;
        }
        root.finalize();
        k = 0;
        while k < n
            invariant
                k <= n,
                n == ps.len(),
                ps == self.particles@,
                all_valid(ps),
                in_range(theta as int),
                self.total_forces@.len() == n,
                self.dt == old(self).dt,
                self.simulation_type == old(self).simulation_type,
                self.integrator_type == old(self).integrator_type,
                self.theta == old(self).theta,
                root.is_finalized(),
                root == tree_of(ps, n as int).finalized(),
                forall|m: int|
                    0 <= m < k ==> {
                        &&& (#[trigger] self.total_forces@[m])[0] == root.force_on(
                            ps[m],
                            theta as int,
                            0,
                        )
                        &&& self.total_forces@[m][1] == root.force_on(ps[m], theta as int, 1)
                    },
            decreases n - k,
        {
            let force = root.compute_force(&self.particles[k], theta);
            self.total_forces.set(k, force);
            k += 1;
        }
        let next = advance_each(&self.particles, &self.total_forces, self.dt, self.integrator_type);
        self.finish_step(next)
    }

    /// Replaces the particles by their outcomes when every one of them stayed
    /// in range, and clears the accumulator.
    fn finish_step(&mut self, next: Vec<Option<Particle>>) -> (advanced: bool)
        requires
            all_valid(old(self).particles@),
            0 < old(self).dt <= LIMIT,
            old(self).simulation_type == Algorithm::BarnesHut ==> old(self).theta.is_some(),
            old(self).theta.is_some() ==> in_range(old(self).theta.unwrap() as int),
            forces_are(
                old(self).total_forces@,
                old(self).particles@,
                old(self).simulation_type,
                old(self).theta,
            ),
            outcomes_of(
                next@,
                old(self).particles@,
                old(self).total_forces@,
                old(self).dt as int,
                old(self).integrator_type,
            ),
        ensures
            final(self).stepped_from(*old(self), advanced),
    {
        let n = self.particles.len();
        let ghost ps = self.particles@;
        let ghost forces = self.total_forces@;
        proof {
            assert forall|k: int| 0 <= k < n implies #[trigger] forces[k] == [
                step_force(ps, self.simulation_type, self.theta, k, 0) as i128,
                step_force(ps, self.simulation_type, self.theta, k, 1) as i128,
            ] by {
                assert(forces[k] =~= [
                    step_force(ps, self.simulation_type, self.theta, k, 0) as i128,
                    step_force(ps, self.simulation_type, self.theta, k, 1) as i128,
                ]);
            }
        }
        let mut moved: Vec<Particle> = Vec::new();
        let mut k: usize = 0;
        let mut complete = true;
        while k < n && complete
            invariant
                k <= n,
                n == ps.len(),
                next@.len() == n,
                moved@.len() == (if complete {
                    k as int
                } else {
                    k - 1
                }),
                complete ==> forall|m: int| 0 <= m < k ==> (#[trigger] next@[m]).is_some(),
                !complete ==> 0 < k && next@[k - 1].is_none(),
                forall|m: int| 0 <= m < moved@.len() ==> #[trigger] moved@[m] == next@[m].unwrap(),
            decreases n - k + (if complete { 1int } else { 0int }),
        {
            match next[k] {
                Some(q) => {
                    moved.push(q);
                },
                None => {
                    complete = false;
                },
            }
            k += 1;
        }
        let mut m: usize = 0;
        while m < n
            invariant
                m <= n,
                n == self.total_forces@.len(),
                self.particles@ == ps,
                self.dt == old(self).dt,
                self.simulation_type == old(self).simulation_type,
                self.integrator_type == old(self).integrator_type,
                self.theta == old(self).theta,
                forall|j: int|
                    0 <= j < m ==> (#[trigger] self.total_forces@[j])[0] == 0
                        && self.total_forces@[j][1] == 0,
            decreases n - m,
        {
            self.total_forces.set(m, [0, 0]);
            m += 1;
        }
        proof {
            let before = *old(self);
            if complete {
                assert forall|j: int| 0 <= j < n implies step_in_range(
                    before.integrator_type,
                    #[trigger] ps[j],
                    [
                        step_force(ps, before.simulation_type, before.theta, j, 0) as i128,
                        step_force(ps, before.simulation_type, before.theta, j, 1) as i128,
                    ],
                    before.dt as int,
                ) by {
                    assert(next@[j].is_some());
                }
                assert forall|j: int| 0 <= j < n implies is_step_of(
                    before.integrator_type,
                    ps[j],
                    [
                        step_force(ps, before.simulation_type, before.theta, j, 0) as i128,
                        step_force(ps, before.simulation_type, before.theta, j, 1) as i128,
                    ],
                    before.dt as int,
                    #[trigger] moved@[j],
                ) && moved@[j].valid() by {
                    assert(next@[j].is_some());
                }
            } else {
                let j = k - 1;
                assert(next@[j].is_none());
                assert(!step_in_range(
                    before.integrator_type,
                    ps[j],
                    [
                        step_force(ps, before.simulation_type, before.theta, j, 0) as i128,
                        step_force(ps, before.simulation_type, before.theta, j, 1) as i128,
                    ],
                    before.dt as int,
                ));
            }
        }
        if complete {
            self.particles = moved;
        }
        complete
    }

    /// Advances the simulation by one time step along the configured path.
    ///
    /// The forces on all particles are evaluated first, from the state before
    /// the step; then every particle is advanced under its own force.  When
    /// one of them would leave the range, nothing is advanced and `false` is
    /// returned.
    pub fn simulation_step(&mut self) -> (advanced: bool)
        requires
            old(self).valid(),
        ensures
            final(self).stepped_from(*old(self), advanced),
    {
        match self.simulation_type {
            Algorithm::DirectSum => self.direct_sum_step(),
            Algorithm::DirectSumParallel => self.direct_sum_parallel_step(),
            Algorithm::BarnesHut => {
                let theta = self.theta.unwrap();
                self.barnes_hut_step(theta)
            },
        }
    }
}

} // verus!
