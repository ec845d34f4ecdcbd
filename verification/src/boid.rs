//! Per-agent state and the per-tick interaction accumulator.
use vstd::prelude::*;

verus! {

use crate::fixed::absi;
use crate::vec2::V2;

/// Positions stay within this many raw units of the origin.
pub const POS_LIMIT: i64 = 4_200_000;

/// Velocity components stay within this many raw units.
pub const VEL_LIMIT: i64 = 2_000_000;

/// Weights live in [SCALE, W_LIMIT]: at least one, at most one hundred.
pub const W_LIMIT: i64 = 100_000;

/// Accumulators never count more neighbours than this; the population cap
/// keeps real counts far below it.
pub const NBR_CAP: i64 = 20_000;

/// Largest single cohesion or alignment contribution of one pair.
pub const TERM_C: i64 = 50_000_000_000;

/// Largest single separation contribution of one pair.
pub const TERM_S: i64 = 100_000_000_000_000;

/// One agent: position, velocity and a mass-like weight; heavier agents
/// exert proportionally more influence.
#[derive(Clone, Copy)]
pub struct Boid {
    pub position: V2,
    pub velocity: V2,
    pub weight: i64,
}

impl Boid {
    pub open spec fn valid(self) -> bool {
        &&& self.position.ok_mag(POS_LIMIT as int)
        &&& self.velocity.ok_mag(VEL_LIMIT as int)
        &&& 1000 <= self.weight <= W_LIMIT
    }

    pub fn new(px: i64, py: i64, vx: i64, vy: i64, w: i64) -> (r: Boid)
        ensures
            r.position.x == px,
            r.position.y == py,
            r.velocity.x == vx,
            r.velocity.y == vy,
            r.weight == w,
    {
        Boid { position: V2 { x: px, y: py }, velocity: V2 { x: vx, y: vy }, weight: w }
    }
}

/// The per-tick interaction accumulator owned one-to-one with a `Boid`:
/// running sums of the neighbour contributions of the current step.
#[derive(Clone, Copy)]
pub struct Calculations {
    pub neighbours: i64,
    pub cohesion: V2,
    pub separation: V2,
    pub alignment: V2,
}

impl Calculations {
    /// Every recorded component stays bounded by the neighbour count times
    /// the largest single contribution.
    pub open spec fn valid(self) -> bool {
        &&& 0 <= self.neighbours <= NBR_CAP
        &&& absi(self.cohesion.x as int) <= self.neighbours * TERM_C
        &&& absi(self.cohesion.y as int) <= self.neighbours * TERM_C
        &&& absi(self.separation.x as int) <= self.neighbours * TERM_S
        &&& absi(self.separation.y as int) <= self.neighbours * TERM_S
        &&& absi(self.alignment.x as int) <= self.neighbours * TERM_C
        &&& absi(self.alignment.y as int) <= self.neighbours * TERM_C
    }

    pub open spec fn is_zero(self) -> bool {
        &&& self.neighbours == 0
        &&& self.cohesion.is_zero()
        &&& self.separation.is_zero()
        &&& self.alignment.is_zero()
    }

    pub fn new() -> (r: Calculations)
        ensures
            r.is_zero(),
            r.valid(),
    {
        Calculations {
            neighbours: 0,
            cohesion: V2 { x: 0, y: 0 },
            separation: V2 { x: 0, y: 0 },
            alignment: V2 { x: 0, y: 0 },
        }
    }

    /// Clear the accumulator for the next tick.
    pub fn reset(&mut self)
        ensures
            final(self).is_zero(),
            final(self).valid(),
    {
        self.neighbours = 0;
        self.cohesion = V2 { x: 0, y: 0 };
        self.separation = V2 { x: 0, y: 0 };
        self.alignment = V2 { x: 0, y: 0 };
    }
}

} // verus!
