use particle_sim::forces::compute_gravity;
use particle_sim::integrator::{advance_each, Integrator};
use particle_sim::pairwise::{accumulate_rows, net_forces, zero_sums};
use particle_sim::parallel::parallel_net_forces;
use particle_sim::particle::Particle;
use particle_sim::simulation::{Algorithm, Simulation};

fn system() -> Vec<Particle> {
    vec![
        Particle::new([102400, 204800], [1024, 0], 10240),
        Particle::new([307200, 204800], [0, -2048], 20480),
        Particle::new([204800, 409600], [-512, 512], 40960),
        Particle::new([512000, 102400], [0, 0], 1024000),
        Particle::new([409600, 307200], [2048, 2048], 5120),
        Particle::new([102400, 512000], [-1024, -1024], 81920),
        Particle::new([716800, 512000], [300, -700], 30720),
    ]
}

fn state(sim: &Simulation) -> Vec<([i64; 2], [i64; 2])> {
    sim.particles.iter().map(|p| (p.position, p.velocity)).collect()
}

#[test]
fn two_unit_masses_one_euler_step() {
    let particles = vec![
        Particle::new([0, 0], [0, 0], 1024),
        Particle::new([1024, 0], [0, 0], 1024),
    ];
    assert_eq!(compute_gravity(&particles[0], &particles[1]), [40426, 0]);
    let mut sim = Simulation::new(particles, 1024, Algorithm::DirectSum, Integrator::Euler, None);
    assert!(sim.is_valid());
    assert!(sim.simulation_step());
    assert_eq!(sim.particles[0].velocity, [40426, 0]);
    assert_eq!(sim.particles[0].position, [40426, 0]);
    assert_eq!(sim.particles[1].velocity, [-40426, 0]);
    assert_eq!(sim.particles[1].position, [1024 - 40426, 0]);
    assert_eq!(sim.total_forces, vec![[0, 0], [0, 0]]);
}

#[test]
fn net_forces_of_the_system() {
    let particles = system();
    let mut sums = zero_sums(particles.len());
    net_forces(&particles, &mut sums);
    assert_eq!(
        sums,
        vec![
            [2695, 90],
            [13916, -6040],
            [2250, -2682],
            [-29363, 30343],
            [1437, -3598],
            [12366, -12559],
            [-3301, -5554],
        ]
    );
    assert_eq!(sums.iter().map(|f| f[0]).sum::<i128>(), 0);
    assert_eq!(sums.iter().map(|f| f[1]).sum::<i128>(), 0);
}

#[test]
fn workers_share_the_rows_between_them() {
    let particles = system();
    let n = particles.len();
    let mut whole = zero_sums(n);
    net_forces(&particles, &mut whole);
    for stride in 1..10usize {
        let mut total = vec![[0i128, 0i128]; n];
        for first in 0..stride {
            let mut sums = zero_sums(n);
            accumulate_rows(&particles, first, stride, &mut sums);
            for k in 0..n {
                total[k][0] += sums[k][0];
                total[k][1] += sums[k][1];
            }
        }
        assert_eq!(total, whole);
    }
}

#[test]
fn parallel_forces_are_the_sequential_forces() {
    let particles = system();
    let mut sequential = zero_sums(particles.len());
    net_forces(&particles, &mut sequential);
    let mut parallel = zero_sums(particles.len());
    parallel_net_forces(&particles, &mut parallel);
    assert_eq!(parallel, sequential);
    assert_eq!(parallel[3], [-29363, 30343]);
}

#[test]
fn five_leapfrog_steps() {
    let mut sim =
        Simulation::new(system(), 16, Algorithm::DirectSum, Integrator::Leapfrog, None);
    for _ in 0..5 {
        assert!(sim.simulation_step());
    }
    assert_eq!(
        state(&sim),
        vec![
            ([102480, 204800], [1044, 0]),
            ([307200, 204640], [50, -2068]),
            ([204760, 409640], [-512, 512]),
            ([512000, 102400], [0, 0]),
            ([409760, 307355], [2068, 1998]),
            ([102325, 511920], [-1014, -1034]),
            ([716820, 511947], [300, -710]),
        ]
    );
}

#[test]
fn parallel_steps_agree_with_sequential_steps() {
    for integrator in [
        Integrator::Euler,
        Integrator::Leapfrog,
        Integrator::Midpoint,
        Integrator::RungeKutta4,
    ] {
        let mut a = Simulation::new(system(), 16, Algorithm::DirectSum, integrator, None);
        let mut b = Simulation::new(system(), 16, Algorithm::DirectSumParallel, integrator, None);
        for _ in 0..20 {
            assert!(a.simulation_step());
            assert!(b.simulation_step());
            assert_eq!(state(&a), state(&b));
        }
        assert!(b.is_valid());
        assert_ne!(state(&b)[0], ([102400, 204800], [1024, 0]));
    }
}

#[test]
fn one_parallel_euler_step() {
    let mut sim =
        Simulation::new(system(), 16, Algorithm::DirectSumParallel, Integrator::Euler, None);
    assert!(sim.simulation_step());
    assert_eq!(
        state(&sim),
        vec![
            ([102416, 204800], [1028, 0]),
            ([307200, 204768], [10, -2052]),
            ([204792, 409607], [-512, 511]),
            ([512000, 102400], [0, 0]),
            ([409632, 307231], [2052, 2037]),
            ([102385, 511984], [-1022, -1026]),
            ([716804, 511990], [299, -702]),
        ]
    );
}

#[test]
fn one_barnes_hut_step() {
    let mut sim =
        Simulation::new(system(), 16, Algorithm::BarnesHut, Integrator::Midpoint, Some(1024));
    assert!(sim.is_valid());
    assert!(sim.simulation_step());
    assert_eq!(
        state(&sim),
        vec![
            ([102416, 204800], [1027, 0]),
            ([307200, 204768], [0, -2048]),
            ([204793, 409607], [-510, 510]),
            ([512000, 102400], [0, 0]),
            ([409632, 307232], [2048, 2048]),
            ([102384, 511984], [-1023, -1025]),
            ([716804, 511990], [299, -702]),
        ]
    );
    assert!(sim.is_valid());
}

#[test]
fn particle_outside_the_world_feels_the_tree_and_is_not_felt() {
    let particles = vec![
        Particle::new([102400, 204800], [1024, 0], 10240),
        Particle::new([307200, 204800], [0, -2048], 20480),
        Particle::new([-5000, 0], [0, 0], 40960),
    ];
    let mut sim =
        Simulation::new(particles, 16, Algorithm::BarnesHut, Integrator::Euler, Some(2048));
    assert!(sim.simulation_step());
    assert_eq!(
        state(&sim),
        vec![
            ([102416, 204800], [1024, 0]),
            ([307200, 204768], [0, -2048]),
            ([-5000, 0], [0, 0]),
        ]
    );
}

#[test]
fn leapfrog_nearly_conserves_momentum() {
    let particles = system();
    let mass: i128 = particles.iter().map(|p| p.mass as i128).sum();
    let momentum = |ps: &Vec<Particle>, axis: usize| -> i128 {
        ps.iter().map(|p| p.mass as i128 * p.velocity[axis] as i128).sum()
    };
    let start = [momentum(&particles, 0), momentum(&particles, 1)];
    assert_eq!(start, [-74670080, -115875840]);
    let mut sim = Simulation::new(particles, 16, Algorithm::DirectSum, Integrator::Leapfrog, None);
    let mut before = start;
    for _ in 0..200 {
        assert!(sim.simulation_step());
        let now = [momentum(&sim.particles, 0), momentum(&sim.particles, 1)];
        assert!((now[0] - before[0]).abs() <= 2 * mass);
        assert!((now[1] - before[1]).abs() <= 2 * mass);
        before = now;
    }
    assert_eq!(before, [11345920, -187555840]);
    assert!((before[0] - start[0]).abs() <= 200 * 2 * mass);
    assert!((before[1] - start[1]).abs() <= 200 * 2 * mass);
}

#[test]
fn step_that_leaves_the_range_changes_nothing() {
    let limit: i64 = 1 << 31;
    let particles = vec![
        Particle::new([0, 0], [0, 0], 1024),
        Particle::new([limit, 0], [2048, 0], 1024),
    ];
    let mut sim = Simulation::new(particles, 1024, Algorithm::DirectSum, Integrator::Euler, None);
    assert!(sim.is_valid());
    assert!(!sim.simulation_step());
    assert_eq!(state(&sim), vec![([0, 0], [0, 0]), ([limit, 0], [2048, 0])]);
    assert_eq!(sim.total_forces, vec![[0, 0], [0, 0]]);
    assert!(sim.is_valid());
}

#[test]
fn positions_come_in_particle_order() {
    let sim = Simulation::new(system(), 16, Algorithm::DirectSum, Integrator::Euler, None);
    let positions = sim.get_particle_positions();
    assert_eq!(positions.len(), 7);
    assert_eq!(positions[0], [102400, 204800]);
    assert_eq!(positions[6], [716800, 512000]);
    let none = Simulation::new(Vec::new(), 16, Algorithm::DirectSum, Integrator::Euler, None);
    assert!(none.get_particle_positions().is_empty());
}

#[test]
fn empty_simulation_steps() {
    for algorithm in [Algorithm::DirectSum, Algorithm::DirectSumParallel, Algorithm::BarnesHut] {
        let mut sim = Simulation::new(Vec::new(), 16, algorithm, Integrator::Leapfrog, Some(512));
        assert!(sim.is_valid());
        assert!(sim.simulation_step());
        assert!(sim.particles.is_empty());
    }
}

#[test]
fn invalid_configurations_are_told() {
    let good = Simulation::new(system(), 16, Algorithm::DirectSum, Integrator::Euler, None);
    assert!(good.is_valid());
    let no_time = Simulation::new(system(), 0, Algorithm::DirectSum, Integrator::Euler, None);
    assert!(!no_time.is_valid());
    let back = Simulation::new(system(), -16, Algorithm::DirectSum, Integrator::Euler, None);
    assert!(!back.is_valid());
    let mut massless = system();
    massless[2].mass = 0;
    let bad = Simulation::new(massless, 16, Algorithm::DirectSum, Integrator::Euler, None);
    assert!(!bad.is_valid());
    let mut no_angle =
        Simulation::new(system(), 16, Algorithm::BarnesHut, Integrator::Euler, Some(512));
    assert!(no_angle.is_valid());
    no_angle.theta = None;
    assert!(!no_angle.is_valid());
    let mut dirty = Simulation::new(system(), 16, Algorithm::DirectSum, Integrator::Euler, None);
    dirty.total_forces[1] = [1, 0];
    assert!(!dirty.is_valid());
}

#[test]
fn advance_each_reports_every_particle() {
    let limit: i64 = 1 << 31;
    let particles = vec![
        Particle::new([0, 0], [1024, 0], 1024),
        Particle::new([limit, 0], [1024, 0], 1024),
    ];
    let forces = vec![[0i128, 0i128], [0, 0]];
    let next = advance_each(&particles, &forces, 1024, Integrator::Euler);
    assert_eq!(next.len(), 2);
    assert_eq!(next[0].unwrap().position, [1024, 0]);
    assert!(next[1].is_none());
}
