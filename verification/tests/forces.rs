use particle_sim::forces::{
    compute_attraction, compute_gravity, GRAVIT_CONST, MASS_CAPACITY, PAIR_FORCE_LIMIT,
};
use particle_sim::particle::Particle;

#[test]
fn unit_masses_one_unit_apart_attract_with_the_constant() {
    let a = Particle::new([0, 0], [0, 0], 1024);
    let b = Particle::new([1024, 0], [0, 0], 1024);
    assert_eq!(GRAVIT_CONST, 40426);
    assert_eq!(compute_gravity(&a, &b), [40426, 0]);
    assert_eq!(compute_gravity(&b, &a), [-40426, 0]);
}

#[test]
fn force_points_along_the_displacement() {
    let a = Particle::new([0, 0], [0, 0], 1024);
    let b = Particle::new([3072, 4096], [0, 0], 1024);
    assert_eq!(compute_gravity(&a, &b), [970, 1293]);
}

#[test]
fn force_is_antisymmetric() {
    let a = Particle::new([0, 0], [0, 0], 1024);
    let b = Particle::new([3072, 4096], [0, 0], 1024);
    let ab = compute_gravity(&a, &b);
    let ba = compute_gravity(&b, &a);
    assert_eq!(ba, [-970, -1293]);
    assert_eq!(ab[0], -ba[0]);
    assert_eq!(ab[1], -ba[1]);
    let c = Particle::new([-700_001, 12_345], [5, 6], 77_777);
    let d = Particle::new([900_003, -54_321], [7, 8], 3);
    let cd = compute_gravity(&c, &d);
    let dc = compute_gravity(&d, &c);
    assert_eq!(cd[0], -dc[0]);
    assert_eq!(cd[1], -dc[1]);
}

#[test]
fn coincident_particles_exert_a_finite_force() {
    let a = Particle::new([5000, -7000], [0, 0], 2048);
    let b = Particle::new([5000, -7000], [10, 10], 4096);
    assert_eq!(compute_gravity(&a, &b), [0, 0]);
    assert_eq!(compute_gravity(&b, &a), [0, 0]);
}

#[test]
fn softening_floor_bounds_the_force_of_close_particles() {
    let a = Particle::new([0, 0], [0, 0], 1024);
    let b = Particle::new([512, 0], [0, 0], 1024);
    assert_eq!(compute_gravity(&a, &b), [20213, 0]);
    let c = Particle::new([1, 0], [0, 0], 1024);
    let f = compute_gravity(&a, &c);
    assert_eq!(f, [39, 0]);
}

#[test]
fn heaviest_particles_stay_within_the_pair_limit() {
    let limit: i64 = 1 << 31;
    let a = Particle::new([0, 0], [0, 0], limit);
    let b = Particle::new([1024, 0], [0, 0], limit);
    let f = compute_gravity(&a, &b);
    assert_eq!(f[0], PAIR_FORCE_LIMIT);
    assert_eq!(f[1], 0);
    let far = Particle::new([limit, limit], [0, 0], limit);
    let near = Particle::new([-limit, -limit], [0, 0], limit);
    let g = compute_gravity(&near, &far);
    assert!(g[0] > 0 && g[0] <= PAIR_FORCE_LIMIT);
    assert_eq!(g[0], g[1]);
}

#[test]
fn attraction_of_a_heavy_body() {
    let f = compute_attraction(&[0, 0], 1024, &[2048, 0], MASS_CAPACITY as i128);
    assert_eq!(f, [40426 * (1i128 << 47) / 4096, 0]);
    assert_eq!(compute_attraction(&[0, 0], 1024, &[2048, 0], 0), [0, 0]);
}
