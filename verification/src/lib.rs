//! A verified core for a two-dimensional flocking ("boids") simulation.
//!
//! Simulation space is modelled in fixed-point arithmetic: every scalar is an
//! `i64` holding a quantity in thousandths of a simulation unit.  The crate
//! holds the parameter store, the agent data model, the pairwise flocking
//! step, the boundary, pointer and resize handlers, the integrator and the
//! population manager, each with a contract over its fixed-point model.
use vstd::prelude::*;

verus! {

pub mod boid;
pub mod fixed;
pub mod flock;
pub mod laws;
pub mod params;
mod rng;
pub mod vec2;

} // verus!
