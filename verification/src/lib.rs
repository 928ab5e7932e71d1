//! Gravitational interaction among point masses in the plane, advanced over
//! discrete time steps, with every function verified against its contract.
//!
//! All quantities are fixed-point numbers with ten binary places (see
//! `fixed`), so that sums of forces do not depend on the order of their
//! terms and every result can be stated exactly.  The forces of a step
//! come from the exact sum over pairs (`pairwise`), from that sum spread
//! over worker threads (`parallel`), or from a Barnes-Hut quadtree
//! (`quadtree`); `integrator` advances a particle under its force, and
//! `simulation` ties them together.  `engine_laws` and `tree_laws` state
//! what holds of every run.
pub mod engine_laws;
pub mod fixed;
pub mod forces;
pub mod integrator;
pub mod pairwise;
pub mod parallel;
pub mod particle;
pub mod quadtree;
pub mod simulation;
pub mod tree_laws;
pub mod utils;
