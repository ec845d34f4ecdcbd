//! The parameter store: every tunable simulation constant, in fixed point.
use vstd::prelude::*;

verus! {

use crate::fixed::tdiv;
use crate::fixed::tdiv_i;
use crate::vec2::V2;

/// All tunable constants of the simulation, in raw fixed-point units
/// (thousandths).  The hosting layer may rewrite them between ticks; within
/// one tick every stage reads one snapshot.
#[derive(Clone, Copy)]
pub struct Parameters {
    pub window_width: i64,
    pub window_height: i64,
    pub number_of_boids: usize,
    pub view_distance: i64,
    pub cohesion_force: i64,
    pub separation_force: i64,
    pub separation_bias: i64,
    pub alignment_bias: i64,
    pub alignment_force: i64,
    pub steering_force: i64,
    pub fidelity: i64,
    pub min_speed: i64,
    pub max_speed: i64,
    pub bounce_off_walls: bool,
}

impl Parameters {
    /// The bounds every stage relies on: positive extents, forces within
    /// the panel's ranges, a fidelity in [0, 1] and an ordered speed band.
    pub open spec fn valid(self) -> bool {
        &&& 0 < self.window_width <= 8_000_000
        &&& 0 < self.window_height <= 8_000_000
        &&& 0 < self.number_of_boids <= 4096
        &&& 0 < self.view_distance <= 500_000
        &&& 0 <= self.cohesion_force <= 100_000
        &&& 0 <= self.separation_force <= 100_000
        &&& 0 <= self.alignment_force <= 100_000
        &&& 0 <= self.steering_force <= 100_000
        &&& 1 <= self.separation_bias <= 10_000
        &&& 1 <= self.alignment_bias <= 100_000
        &&& 0 <= self.fidelity <= 1000
        &&& 0 < self.min_speed <= self.max_speed <= 500_000
    }

    /// Runtime mirror of `valid`, for hosts that edit the parameters.
    pub fn check_valid(&self) -> (r: bool)
        ensures
            r == self.valid(),
    {
        0 < self.window_width && self.window_width <= 8_000_000 && 0 < self.window_height
            && self.window_height <= 8_000_000 && 0 < self.number_of_boids
            && self.number_of_boids <= 4096 && 0 < self.view_distance
            && self.view_distance <= 500_000 && 0 <= self.cohesion_force
            && self.cohesion_force <= 100_000 && 0 <= self.separation_force
            && self.separation_force <= 100_000 && 0 <= self.alignment_force
            && self.alignment_force <= 100_000 && 0 <= self.steering_force
            && self.steering_force <= 100_000 && 1 <= self.separation_bias
            && self.separation_bias <= 10_000 && 1 <= self.alignment_bias
            && self.alignment_bias <= 100_000 && 0 <= self.fidelity && self.fidelity <= 1000
            && 0 < self.min_speed && self.min_speed <= self.max_speed && self.max_speed <= 500_000
    }

    pub open spec fn half_w(self) -> int {
        tdiv(self.window_width as int, 2)
    }

    pub open spec fn half_h(self) -> int {
        tdiv(self.window_height as int, 2)
    }

    /// The valid range of x coordinates given the window size.
    pub fn window_x_range(&self) -> (r: (i64, i64))
        requires
            self.valid(),
        ensures
            r.0 == -self.half_w(),
            r.1 == self.half_w(),
            0 <= r.1 <= 4_000_000,
    {
        let h: i64 = tdiv_i(self.window_width, 2);
        proof {
            crate::fixed::lemma_tdiv_abs(self.window_width as int, 2);
        }
        (-h, h)
    }

    /// The valid range of y coordinates given the window size.
    pub fn window_y_range(&self) -> (r: (i64, i64))
        requires
            self.valid(),
        ensures
            r.0 == -self.half_h(),
            r.1 == self.half_h(),
            0 <= r.1 <= 4_000_000,
    {
        let h: i64 = tdiv_i(self.window_height, 2);
        proof {
            crate::fixed::lemma_tdiv_abs(self.window_height as int, 2);
        }
        (-h, h)
    }

    /// The corner of maximal coordinates given the window size.
    pub fn max_position(&self) -> (r: V2)
        requires
            self.valid(),
        ensures
            r.x == self.half_w(),
            r.y == self.half_h(),
    {
        let hx: i64 = tdiv_i(self.window_width, 2);
        let hy: i64 = tdiv_i(self.window_height, 2);
        V2 { x: hx, y: hy }
    }

    /// The corner of minimal coordinates given the window size.
    pub fn min_position(&self) -> (r: V2)
        requires
            self.valid(),
        ensures
            r.x == -self.half_w(),
            r.y == -self.half_h(),
    {
        let hx: i64 = tdiv_i(self.window_width, 2);
        let hy: i64 = tdiv_i(self.window_height, 2);
        proof {
            crate::fixed::lemma_tdiv_abs(self.window_width as int, 2);
            crate::fixed::lemma_tdiv_abs(self.window_height as int, 2);
        }
        V2 { x: -hx, y: -hy }
    }
}

impl Default for Parameters {
    /// The panel's starting values, scaled into raw units.
    fn default() -> (r: Self)
        ensures
            r.valid(),
            r.window_width == 100_000,
            r.window_height == 100_000,
            r.number_of_boids == 512,
            r.view_distance == 75_000,
            r.cohesion_force == 2_500,
            r.separation_force == 1_800,
            r.separation_bias == 1_100,
            r.alignment_force == 1_100,
            r.alignment_bias == 1_500,
            r.steering_force == 800,
            r.fidelity == 900,
            r.min_speed == 25_000,
            r.max_speed == 100_000,
            r.bounce_off_walls == false,
    {
        Parameters {
            window_width: 100_000,
            window_height: 100_000,
            number_of_boids: 512,
            view_distance: 75_000,
            cohesion_force: 2_500,
            separation_force: 1_800,
            separation_bias: 1_100,
            alignment_force: 1_100,
            alignment_bias: 1_500,
            steering_force: 800,
            fidelity: 900,
            min_speed: 25_000,
            max_speed: 100_000,
            bounce_off_walls: false,
        }
    }
}

} // verus!
