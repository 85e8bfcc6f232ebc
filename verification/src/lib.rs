//! A Metropolis Monte Carlo sampler for a Lennard-Jones particle fluid
//! under periodic boundary conditions, with an adaptive trial-displacement
//! controller, incremental energy bookkeeping, a trajectory frame codec and
//! a surface-tension analyzer for recorded trajectories.
//!
//! All physical quantities are fixed-point integers (see `fixed`), which
//! makes the sampling arithmetic exact: the incrementally tracked total
//! energy provably equals a from-scratch recomputation at every step.
use vstd::prelude::*;

pub mod fixed;
pub mod geometry;
pub mod potential;
pub mod rng;
pub mod engine;
pub mod stats;
pub mod setup;
pub mod trajectory;
pub mod analyzer;

verus! {

} // verus!
