//! The library's general laws, stated once and proved by the verifier.
use vstd::prelude::*;

verus! {

use crate::boid::Calculations;
use crate::boid::POS_LIMIT;
use crate::flock::fly_pos;
use crate::flock::wall_axis;
use crate::flock::Flock;
use crate::params::Parameters;
use crate::vec2::len_sq_s;
use crate::vec2::V2;

/// After a flocking step folds an agent's accumulator into its velocity,
/// the new speed lies in the configured band: at least the minimum and at
/// most the maximum speed.  The bounds must be separated by a few raw
/// thousandths, or fixed-point truncation at the band's edge could cross
/// from one bound over the other; a still agent stays still.
pub proof fn law_flocking_speed_band(p: Parameters, c: Calculations, vel: V2)
    requires
        p.valid(),
        2 <= p.min_speed,
        2 * p.min_speed + 4 <= p.max_speed,
    ensures
        ({
            let r = Flock::steered_velocity(p, c, vel);
            len_sq_s(r.0, r.1) != 0 ==> p.min_speed * p.min_speed <= len_sq_s(r.0, r.1)
                <= p.max_speed * p.max_speed
        }),
{
    let n = c.neighbours as int;
    let coh = crate::vec2::clamp_len_max_s(
        -crate::fixed::tdiv(c.cohesion.x as int, n),
        -crate::fixed::tdiv(c.cohesion.y as int, n),
        p.steering_force as int,
    );
    let sep = crate::vec2::clamp_len_max_s(
        c.separation.x as int,
        c.separation.y as int,
        p.steering_force as int,
    );
    let ali = crate::vec2::clamp_len_max_s(
        c.alignment.x as int,
        c.alignment.y as int,
        p.steering_force as int,
    );
    let sx = vel.x + crate::fixed::tdiv(p.cohesion_force as int * coh.0, 1000)
        + crate::fixed::tdiv(p.separation_force as int * sep.0, 1000)
        + crate::fixed::tdiv(p.alignment_force as int * ali.0, 1000);
    let sy = vel.y + crate::fixed::tdiv(p.cohesion_force as int * coh.1, 1000)
        + crate::fixed::tdiv(p.separation_force as int * sep.1, 1000)
        + crate::fixed::tdiv(p.alignment_force as int * ali.1, 1000);
    crate::vec2::lemma_clamp_speed_band(sx, sy, p.min_speed as int, p.max_speed as int);
    crate::vec2::lemma_clamp_speed_s(sx, sy, p.min_speed as int, p.max_speed as int);
}

/// Integrating a position with zero velocity leaves it unchanged, for any
/// elapsed time.
pub proof fn law_rest_stays_put(pos: int, dt: int)
    requires
        -(POS_LIMIT as int) <= pos <= POS_LIMIT as int,
        0 <= dt,
    ensures
        fly_pos(pos, 0, dt) == pos,
{
    assert(0 * dt == 0) by (nonlinear_arith);
}

/// The wrap-mode boundary mirrors the position of an agent that stands
/// beyond the viewport edge while still moving outward, and touches nothing
/// else: not an agent inside the bounds, nor one already moving back in.
pub proof fn law_wrap_boundary(pos: int, vel: int, half: int)
    requires
        0 < half,
    ensures
        pos >= half && vel > 0 ==> wall_axis(pos, vel, half, false) == (-pos, vel),
        pos < -half && vel < 0 ==> wall_axis(pos, vel, half, false) == (-pos, vel),
        -half <= pos < half ==> wall_axis(pos, vel, half, false) == (pos, vel),
        pos >= half && vel <= 0 ==> wall_axis(pos, vel, half, false) == (pos, vel),
        pos < -half && vel >= 0 ==> wall_axis(pos, vel, half, false) == (pos, vel),
{
}

/// In reflect mode the same trigger negates the outward velocity component
/// instead of the position.
pub proof fn law_bounce_boundary(pos: int, vel: int, half: int)
    requires
        0 < half,
    ensures
        pos >= half && vel > 0 ==> wall_axis(pos, vel, half, true) == (pos, -vel),
        -half <= pos < half ==> wall_axis(pos, vel, half, true) == (pos, vel),
{
}

} // verus!
