//! The point mass that the simulation moves around.
use vstd::prelude::*;
use crate::fixed::{in_range, stored_in_range, LIMIT};

verus! {

/// A point mass in the plane.  Position, velocity and mass are fixed-point
/// quantities; index 0 is the horizontal axis and index 1 the vertical one.
#[derive(Debug, Clone, Copy)]
pub struct Particle {
    pub position: [i64; 2],
    pub velocity: [i64; 2],
    pub mass: i64,
}

impl Particle {
    /// A particle is valid when its mass is positive and every stored
    /// quantity is in range.
    pub open spec fn valid(&self) -> bool {
        &&& in_range(self.position[0] as int)
        &&& in_range(self.position[1] as int)
        &&& in_range(self.velocity[0] as int)
        &&& in_range(self.velocity[1] as int)
        &&& 0 < self.mass <= LIMIT
    }

    /// Builds a particle from its three parts.
    pub fn new(position: [i64; 2], velocity: [i64; 2], mass: i64) -> (p: Self)
        ensures
            p.position == position,
            p.velocity == velocity,
            p.mass == mass,
    {
        Particle { position, velocity, mass }
    }

    /// Tells whether the particle is valid.
    pub fn is_valid(&self) -> (ok: bool)
        ensures
            ok == self.valid(),
    {
        stored_in_range(self.position[0]) && stored_in_range(self.position[1])
            && stored_in_range(self.velocity[0]) && stored_in_range(self.velocity[1])
            && 0 < self.mass && self.mass <= LIMIT
    }
}

/// Every particle of the sequence is valid.
pub open spec fn all_valid(ps: Seq<Particle>) -> bool {
    forall|k: int| 0 <= k < ps.len() ==> (#[trigger] ps[k]).valid()
}

} // verus!
