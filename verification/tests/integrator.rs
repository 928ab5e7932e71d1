use particle_sim::integrator::{advanced, time_integration, Integrator};
use particle_sim::particle::Particle;

fn start() -> Particle {
    Particle::new([1000, -2000], [300, -500], 1024)
}

#[test]
fn euler_kicks_then_drifts() {
    let mut p = start();
    assert!(time_integration(&mut p, &[3503, -3503], 512, Integrator::Euler));
    assert_eq!(p.velocity, [2051, -2251]);
    assert_eq!(p.position, [2025, -3125]);
    assert_eq!(p.mass, 1024);
}

#[test]
fn leapfrog_kicks_twice_by_half() {
    let mut p = start();
    assert!(time_integration(&mut p, &[3503, -3503], 512, Integrator::Leapfrog));
    assert_eq!(p.velocity, [2050, -2250]);
    assert_eq!(p.position, [1587, -2687]);
}

#[test]
fn midpoint_drifts_with_the_half_step_velocity() {
    let mut p = start();
    assert!(time_integration(&mut p, &[3503, -3503], 512, Integrator::Midpoint));
    assert_eq!(p.velocity, [2051, -2251]);
    assert_eq!(p.position, [1587, -2687]);
}

#[test]
fn runge_kutta_weighs_four_stages() {
    let mut p = start();
    assert!(time_integration(&mut p, &[3503, -3503], 512, Integrator::RungeKutta4));
    assert_eq!(p.velocity, [2051, -2251]);
    assert_eq!(p.position, [1587, -2687]);
}

#[test]
fn schemes_on_a_longer_step() {
    let p = Particle::new([1000, -2000], [301, -501], 1024);
    let force = [3503 * 7, -3503 * 5];
    let e = advanced(&p, &force, 1536, Integrator::Euler).unwrap();
    assert_eq!((e.position, e.velocity), ([56623, -42159], [37082, -26773]));
    let l = advanced(&p, &force, 1536, Integrator::Leapfrog).unwrap();
    assert_eq!((l.position, l.velocity), ([29036, -22455], [37081, -26773]));
    let m = advanced(&p, &force, 1536, Integrator::Midpoint).unwrap();
    assert_eq!((m.position, m.velocity), ([29036, -22455], [37082, -26773]));
    let r = advanced(&p, &force, 1536, Integrator::RungeKutta4).unwrap();
    assert_eq!((r.position, r.velocity), ([29036, -22455], [37082, -26773]));
}

#[test]
fn no_force_means_uniform_motion() {
    let mut p = Particle::new([0, 0], [2048, -1024], 5);
    assert!(time_integration(&mut p, &[0, 0], 512, Integrator::Leapfrog));
    assert_eq!(p.velocity, [2048, -1024]);
    assert_eq!(p.position, [1024, -512]);
}

#[test]
fn step_out_of_range_leaves_the_particle() {
    let limit: i64 = 1 << 31;
    let mut p = Particle::new([limit, 0], [1024, 0], 1024);
    assert!(!time_integration(&mut p, &[0, 0], 1024, Integrator::Euler));
    assert_eq!(p.position, [limit, 0]);
    assert_eq!(p.velocity, [1024, 0]);
    let mut q = Particle::new([0, 0], [limit, 0], 1024);
    assert!(!time_integration(&mut q, &[1024, 0], 1024, Integrator::Leapfrog));
    assert_eq!(q.velocity, [limit, 0]);
    assert!(advanced(&q, &[1024, 0], 1024, Integrator::Midpoint).is_none());
}

#[test]
fn enormous_force_is_out_of_range() {
    let p = Particle::new([0, 0], [0, 0], 1);
    assert!(advanced(&p, &[1i128 << 100, 0], 1, Integrator::Euler).is_none());
    assert!(advanced(&p, &[0, -(1i128 << 100)], 1, Integrator::RungeKutta4).is_none());
    assert!(advanced(&p, &[i128::MAX, i128::MIN], 1, Integrator::Leapfrog).is_none());
}

#[test]
fn step_to_the_edge_of_the_range_succeeds() {
    let limit: i64 = 1 << 31;
    let p = Particle::new([limit - 1024, 0], [1024, 0], 1024);
    let q = advanced(&p, &[0, 0], 1024, Integrator::Euler).unwrap();
    assert_eq!(q.position, [limit, 0]);
}
