use particle_sim::utils::{
    generate_random_particles, START_HEIGHT, START_MASS_MAX, START_MASS_MIN, START_SPEED,
    START_WIDTH,
};

#[test]
fn random_particles_lie_in_the_start_box() {
    let particles = generate_random_particles(500);
    assert_eq!(particles.len(), 500);
    for p in &particles {
        assert!(p.is_valid());
        assert!(0 <= p.position[0] && p.position[0] < START_WIDTH);
        assert!(0 <= p.position[1] && p.position[1] < START_HEIGHT);
        assert!(-START_SPEED <= p.velocity[0] && p.velocity[0] < START_SPEED);
        assert!(-START_SPEED <= p.velocity[1] && p.velocity[1] < START_SPEED);
        assert!(START_MASS_MIN <= p.mass && p.mass < START_MASS_MAX);
    }
}

#[test]
fn random_particles_differ() {
    let particles = generate_random_particles(200);
    let first = particles[0];
    assert!(particles.iter().any(|p| p.position != first.position));
    assert!(particles.iter().any(|p| p.velocity != first.velocity));
    assert!(particles.iter().any(|p| p.mass != first.mass));
    assert!(particles.iter().any(|p| p.position[0] != 0));
    assert!(particles.iter().any(|p| p.mass != START_MASS_MIN));
}

#[test]
fn no_particles_when_none_are_asked_for() {
    assert!(generate_random_particles(0).is_empty());
}
