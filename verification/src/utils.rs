//! Random initial conditions.
use vstd::prelude::*;
use rand::Rng;
use crate::particle::Particle;

verus! {

/// Horizontal positions are drawn from `0..START_WIDTH`.
pub const START_WIDTH: i64 = 1536000;

/// Vertical positions are drawn from `0..START_HEIGHT`.
pub const START_HEIGHT: i64 = 921600;

/// Velocity components are drawn from `-START_SPEED..START_SPEED`.
pub const START_SPEED: i64 = 102400;

/// Masses are drawn from `START_MASS_MIN..START_MASS_MAX`.
pub const START_MASS_MIN: i64 = 10240;

/// The bound that masses stay below.
pub const START_MASS_MAX: i64 = 102400;

/// `rand::rngs::ThreadRng`, the handle to the generator of a thread.  It is
/// carried from `thread_rng` to `gen_range`; nothing is known of its inside.
#[verifier::external_type_specification]
#[verifier::external_body]
pub struct ExThreadRng(rand::rngs::ThreadRng);

/// The particle lies in the box that random particles are drawn from.
pub open spec fn in_start_box(p: Particle) -> bool {
    &&& 0 <= p.position[0] < START_WIDTH
    &&& 0 <= p.position[1] < START_HEIGHT
    &&& -START_SPEED <= p.velocity[0] < START_SPEED
    &&& -START_SPEED <= p.velocity[1] < START_SPEED
    &&& START_MASS_MIN <= p.mass < START_MASS_MAX
}

/// Calls `rand::thread_rng`, which hands out the generator of the calling
/// thread, seeded by the system.  Nothing is claimed of the generator.
#[verifier::external_body]
fn thread_generator() -> (rng: rand::rngs::ThreadRng) {
    rand::thread_rng()
}

/// Calls `Rng::gen_range` on the half-open range `low..high`, which must
/// not be empty.  The claim is that the value lies in that range; which
/// value it is depends on chance.
#[verifier::external_body]
fn sample_between(rng: &mut rand::rngs::ThreadRng, low: i64, high: i64) -> (value: i64)
    requires
        low < high,
    ensures
        low <= value < high,
{
    rng.gen_range(low..high)
}

/// Draws `n` particles with random positions, velocities and masses.
pub fn generate_random_particles(n: usize) -> (particles: Vec<Particle>)
    ensures
        particles@.len() == n,
        forall|k: int| 0 <= k < n ==> in_start_box(#[trigger] particles@[k]),
        forall|k: int| 0 <= k < n ==> (#[trigger] particles@[k]).valid(),
{
    let mut rng = thread_generator();
    let mut particles: Vec<Particle> = Vec::new();
    let mut k: usize = 0;
    while k < n
        invariant
            k <= n,
            particles@.len() == k,
            forall|m: int| 0 <= m < k ==> in_start_box(#[trigger] particles@[m]),
            forall|m: int| 0 <= m < k ==> (#[trigger] particles@[m]).valid(),
        decreases n - k,
    {
        let x = sample_between(&mut rng, 0, START_WIDTH);
        let y = sample_between(&mut rng, 0, START_HEIGHT);
        let vx = sample_between(&mut rng, -START_SPEED, START_SPEED);
        let vy = sample_between(&mut rng, -START_SPEED, START_SPEED);
        let mass = sample_between(&mut rng, START_MASS_MIN, START_MASS_MAX);
        particles.push(Particle::new([x, y], [vx, vy], mass));
        k += 1;
    }
    particles
}

} // verus!
