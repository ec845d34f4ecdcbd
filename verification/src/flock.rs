//! The flock: the agent list, the pairwise flocking step, boundary, pointer
//! and resize handling, integration and population management.
use vstd::prelude::*;

verus! {

use crate::boid::Boid;
use crate::boid::Calculations;
use crate::boid::NBR_CAP;
use crate::boid::POS_LIMIT;
use crate::boid::TERM_C;
use crate::boid::TERM_S;
use crate::boid::VEL_LIMIT;
use crate::boid::W_LIMIT;
use crate::fixed::absi;
use crate::fixed::fp_mul;
use crate::fixed::isqrt;
use crate::fixed::lemma_abs_mul;
use crate::fixed::lemma_div_mono;
use crate::fixed::lemma_div_pos_le;
use crate::fixed::lemma_tdiv_abs;
use crate::fixed::sep_factor;
use crate::fixed::sep_factor_s;
use crate::fixed::align_factor;
use crate::fixed::align_factor_s;
use crate::fixed::sqrt_f;
use crate::fixed::tdiv;
use crate::fixed::tdiv_i;
use crate::params::Parameters;
use crate::vec2::len_sq_s;
use crate::vec2::lemma_sq_nonneg;
use crate::vec2::V2;

pub open spec fn maxi(a: int, b: int) -> int {
    if a > b { a } else { b }
}

pub open spec fn clampi(v: int, lo: int, hi: int) -> int {
    if v < lo { lo } else if v > hi { hi } else { v }
}

/// Squared distance between two agents' positions.
pub open spec fn dist_sq_b(b1: Boid, b2: Boid) -> int {
    len_sq_s(b1.position.x - b2.position.x, b1.position.y - b2.position.y)
}

/// Two agents interact only when their distance is within the view distance.
pub open spec fn within_view(p: Parameters, b1: Boid, b2: Boid) -> bool {
    sqrt_f(dist_sq_b(b1, b2)) <= p.view_distance
}

/// Distance floored at one raw unit, so divisions stay defined.
pub open spec fn dist_floor_b(b1: Boid, b2: Boid) -> int {
    maxi(sqrt_f(dist_sq_b(b1, b2)), 1)
}

/// Cosine similarity of two velocities in fixed point: zero when either
/// agent is stationary, clamped into [-SCALE, SCALE].
pub open spec fn sim_s(v1: V2, v2: V2) -> int {
    let m1 = sqrt_f(v1.len_sq());
    let m2 = sqrt_f(v2.len_sq());
    if m1 == 0 || m2 == 0 {
        0
    } else {
        clampi(tdiv((v1.x * v2.x + v1.y * v2.y) * 1000, m1 * m2), -1000, 1000)
    }
}

/// Influence of a neighbour of weight `wo` on an agent of weight `ws`:
/// the squared weight ratio, in fixed point.
pub open spec fn infl_s(wo: int, ws: int) -> int {
    tdiv(tdiv(wo * wo, 1000) * 1000, maxi(tdiv(ws * ws, 1000), 1))
}

/// Cohesion contribution of `other` to `me`: the neighbour's position,
/// weighted by its influence.
pub open spec fn pair_coh(p: Parameters, me: Boid, other: Boid) -> (int, int) {
    let infl = infl_s(other.weight as int, me.weight as int);
    (
        tdiv(other.position.x * infl, 1000),
        tdiv(other.position.y * infl, 1000),
    )
}

/// Separation contribution: the vector away from the neighbour, scaled by
/// the separation factor and the influence.
pub open spec fn pair_sep(p: Parameters, me: Boid, other: Boid) -> (int, int) {
    let sf = sep_factor_s(dist_floor_b(me, other), p.separation_bias as int);
    let infl = infl_s(other.weight as int, me.weight as int);
    (
        tdiv(tdiv((me.position.x - other.position.x) * sf, 1000) * infl, 1000),
        tdiv(tdiv((me.position.y - other.position.y) * sf, 1000) * infl, 1000),
    )
}

/// Alignment contribution: the neighbour's velocity, scaled by the
/// alignment factor and the influence.
pub open spec fn pair_ali(p: Parameters, me: Boid, other: Boid) -> (int, int) {
    let af = align_factor_s(p.alignment_bias as int, sim_s(me.velocity, other.velocity));
    let infl = infl_s(other.weight as int, me.weight as int);
    (
        tdiv(tdiv(other.velocity.x * af, 1000) * infl, 1000),
        tdiv(tdiv(other.velocity.y * af, 1000) * infl, 1000),
    )
}

/// Both strictly positive, both strictly negative, or both zero.
pub open spec fn same_sign(a: int, v: int) -> bool {
    (a > 0 && v > 0) || (a < 0 && v < 0) || (a == 0 && v == 0)
}

/// Boundary handling of one axis: outside the half-extent and still moving
/// outward, the velocity component bounces (reflect mode) or the position
/// component is mirrored (wrap mode); otherwise nothing changes.
pub open spec fn wall_axis(pos: int, vel: int, half: int, bounce: bool) -> (int, int) {
    if (pos < -half || pos >= half) && same_sign(pos, vel) {
        if bounce { (pos, -vel) } else { (-pos, vel) }
    } else {
        (pos, vel)
    }
}

/// Integration of one position component: advance by velocity times the
/// elapsed time, held inside the coordinate range of the model.
pub open spec fn fly_pos(pos: int, vel: int, dt: int) -> int {
    clampi(pos + tdiv(vel * dt, 1000), -(POS_LIMIT as int), POS_LIMIT as int)
}

/// Pointer interaction on one agent: within four view distances of the
/// pointer, a pull toward (or push away from) it is added to the velocity,
/// which is then clamped to the maximum speed.
pub open spec fn mouse_vel(p: Parameters, b: Boid, ptr: V2, attract: bool) -> (int, int) {
    let dsq = len_sq_s(ptr.x - b.position.x, ptr.y - b.position.y);
    if sqrt_f(dsq) > 4 * p.view_distance {
        (b.velocity.x as int, b.velocity.y as int)
    } else {
        let tx = if attract { ptr.x - b.position.x as int } else { -(ptr.x - b.position.x as int) };
        let ty = if attract { ptr.y - b.position.y as int } else { -(ptr.y - b.position.y as int) };
        let gx = tdiv(tdiv(tdiv(tx * p.steering_force, 1000) * p.cohesion_force, 1000) * 500, 1000);
        let gy = tdiv(tdiv(tdiv(ty * p.steering_force, 1000) * p.cohesion_force, 1000) * 500, 1000);
        crate::vec2::clamp_len_max_s(b.velocity.x + gx, b.velocity.y + gy, p.max_speed as int)
    }
}

/// The accumulator `new` records exactly one more neighbour than `old`,
/// with the contributions of `other` folded in.
pub open spec fn calc_after_pair(
    old_c: Calculations,
    new_c: Calculations,
    p: Parameters,
    me: Boid,
    other: Boid,
) -> bool {
    &&& new_c.neighbours == old_c.neighbours + 1
    &&& new_c.cohesion.x as int == old_c.cohesion.x + pair_coh(p, me, other).0
    &&& new_c.cohesion.y as int == old_c.cohesion.y + pair_coh(p, me, other).1
    &&& new_c.separation.x as int == old_c.separation.x + pair_sep(p, me, other).0
    &&& new_c.separation.y as int == old_c.separation.y + pair_sep(p, me, other).1
    &&& new_c.alignment.x as int == old_c.alignment.x + pair_ali(p, me, other).0
    &&& new_c.alignment.y as int == old_c.alignment.y + pair_ali(p, me, other).1
}

/// The flock: one accumulator per agent, reset at every tick's end.
pub struct Flock {
    pub boids: Vec<Boid>,
    pub calcs: Vec<Calculations>,
}

impl Flock {
    pub open spec fn wf(self) -> bool {
        &&& self.boids@.len() == self.calcs@.len()
        &&& self.boids@.len() <= 4096
        &&& forall|k: int| 0 <= k < self.boids@.len() ==> (#[trigger] self.boids@[k]).valid()
        &&& forall|k: int| 0 <= k < self.calcs@.len() ==> (#[trigger] self.calcs@[k]).valid()
    }

    pub open spec fn calcs_zero(self) -> bool {
        forall|k: int| 0 <= k < self.calcs@.len() ==> (#[trigger] self.calcs@[k]).is_zero()
    }

    pub fn new() -> (r: Flock)
        ensures
            r.wf(),
            r.boids@.len() == 0,
            r.calcs_zero(),
    {
        Flock { boids: Vec::new(), calcs: Vec::new() }
    }

    /// Evaluate one unordered pair: when the agents see each other, fold the
    /// mutual contributions into both accumulators; a pair beyond the view
    /// distance affects neither accumulator.
    #[verifier::rlimit(80)]
    pub fn pair_eval(&mut self, p: &Parameters, i: usize, j: usize)
        requires
            old(self).wf(),
            p.valid(),
            i < j,
            j < old(self).boids@.len(),
        ensures
            final(self).wf(),
            final(self).boids@ == old(self).boids@,
            final(self).calcs@.len() == old(self).calcs@.len(),
            forall|k: int|
                0 <= k < old(self).calcs@.len() && k != i && k != j
                    ==> final(self).calcs@[k] == old(self).calcs@[k],
            forall|k: int|
                0 <= k < old(self).calcs@.len()
                    ==> (#[trigger] final(self).calcs@[k]).neighbours
                        >= old(self).calcs@[k].neighbours,
            !within_view(*p, old(self).boids@[i as int], old(self).boids@[j as int])
                ==> final(self).calcs@ == old(self).calcs@,
            within_view(*p, old(self).boids@[i as int], old(self).boids@[j as int])
                && old(self).calcs@[i as int].neighbours < NBR_CAP ==> calc_after_pair(
                old(self).calcs@[i as int],
                final(self).calcs@[i as int],
                *p,
                old(self).boids@[i as int],
                old(self).boids@[j as int],
            ),
            within_view(*p, old(self).boids@[i as int], old(self).boids@[j as int])
                && old(self).calcs@[j as int].neighbours < NBR_CAP ==> calc_after_pair(
                old(self).calcs@[j as int],
                final(self).calcs@[j as int],
                *p,
                old(self).boids@[j as int],
                old(self).boids@[i as int],
            ),
            old(self).calcs@[i as int].neighbours >= NBR_CAP
                ==> final(self).calcs@[i as int] == old(self).calcs@[i as int],
            old(self).calcs@[j as int].neighbours >= NBR_CAP
                ==> final(self).calcs@[j as int] == old(self).calcs@[j as int],
    {
        let bi: Boid = self.boids[i];
        let bj: Boid = self.boids[j];
        let dx: i64 = bi.position.x - bj.position.x;
        let dy: i64 = bi.position.y - bj.position.y;
        proof {
            lemma_sq_nonneg(dx as int);
            lemma_sq_nonneg(dy as int);
            assert(absi(dx as int) * absi(dx as int) <= 100_000_000_000_000
                && absi(dy as int) * absi(dy as int) <= 100_000_000_000_000) by (nonlinear_arith)
                requires
                    0 <= absi(dx as int) <= 10_000_000,
                    0 <= absi(dy as int) <= 10_000_000,
            ;
        }
        let dsq: i64 = dx * dx + dy * dy;
        let dist: i64 = isqrt(dsq);
        if dist > p.view_distance {
            return ;
        }
        let ci0: i64 = self.calcs[i].neighbours;
        let cj0: i64 = self.calcs[j].neighbours;
        let d: i64 = if dist < 1 { 1 } else { dist };
        let sf: i64 = sep_factor(d, p.separation_bias);
        proof {
            lemma_sq_nonneg(bi.velocity.x as int);
            lemma_sq_nonneg(bi.velocity.y as int);
            lemma_sq_nonneg(bj.velocity.x as int);
            lemma_sq_nonneg(bj.velocity.y as int);
            lemma_prod_bound(bi.velocity.x as int, bi.velocity.x as int, 2_000_000, 2_000_000,
                4_000_000_000_000, 4_000_000_000);
            lemma_prod_bound(bi.velocity.y as int, bi.velocity.y as int, 2_000_000, 2_000_000,
                4_000_000_000_000, 4_000_000_000);
            lemma_prod_bound(bj.velocity.x as int, bj.velocity.x as int, 2_000_000, 2_000_000,
                4_000_000_000_000, 4_000_000_000);
            lemma_prod_bound(bj.velocity.y as int, bj.velocity.y as int, 2_000_000, 2_000_000,
                4_000_000_000_000, 4_000_000_000);
        }
        let m1: i64 = isqrt(bi.velocity.x * bi.velocity.x + bi.velocity.y * bi.velocity.y);
        let m2: i64 = isqrt(bj.velocity.x * bj.velocity.x + bj.velocity.y * bj.velocity.y);
        proof {
            assert(m1 as int <= 3_000_000 && m2 as int <= 3_000_000) by {
                if m1 as int > 3_000_000 {
                    assert((m1 as int) * (m1 as int) > 8_000_000_000_000) by (nonlinear_arith)
                        requires
                            m1 as int > 3_000_000,
                    ;
                }
                if m2 as int > 3_000_000 {
                    assert((m2 as int) * (m2 as int) > 8_000_000_000_000) by (nonlinear_arith)
                        requires
                            m2 as int > 3_000_000,
                    ;
                }
            }
        }
        let sim: i64 = if m1 == 0 || m2 == 0 {
            0
        } else {
            proof {
                lemma_prod_bound(bi.velocity.x as int, bj.velocity.x as int, 2_000_000,
                    2_000_000, 4_000_000_000_000, 4_000_000_000);
                lemma_prod_bound(bi.velocity.y as int, bj.velocity.y as int, 2_000_000,
                    2_000_000, 4_000_000_000_000, 4_000_000_000);
                assert(1 <= (m1 as int) * (m2 as int) <= 9_000_000_000_000) by (nonlinear_arith)
                    requires
                        1 <= m1 as int <= 3_000_000,
                        1 <= m2 as int <= 3_000_000,
                ;
            }
            let dot: i64 = bi.velocity.x * bj.velocity.x + bi.velocity.y * bj.velocity.y;
            let q: i64 = tdiv_i(dot * 1000, m1 * m2);
            if q < -1000 {
                -1000
            } else if q > 1000 {
                1000
            } else {
                q
            }
        };
        let af: i64 = align_factor(p.alignment_bias, sim);
        proof {
            lemma_prod_bound(bi.weight as int, bi.weight as int, 100_000, 100_000,
                10_000_000_000, 10_000_000);
            lemma_prod_bound(bj.weight as int, bj.weight as int, 100_000, 100_000,
                10_000_000_000, 10_000_000);
        }
        let wi2: i64 = fp_mul(bi.weight, bi.weight);
        let wj2: i64 = fp_mul(bj.weight, bj.weight);
        proof {
            // weights at least one give squared weights at least one unit
            lemma_tdiv_abs(bi.weight as int * bi.weight as int, 1000);
            lemma_tdiv_abs(bj.weight as int * bj.weight as int, 1000);
            assert(bi.weight as int * bi.weight as int >= 1_000_000
                && bj.weight as int * bj.weight as int >= 1_000_000) by (nonlinear_arith)
                requires
                    1000 <= bi.weight as int,
                    1000 <= bj.weight as int,
            ;
            lemma_div_mono(1_000_000, bi.weight as int * bi.weight as int, 1000);
            lemma_div_mono(1_000_000, bj.weight as int * bj.weight as int, 1000);
            assert(1_000_000int / 1000int == 1000int) by (nonlinear_arith);
        }
        let w1d: i64 = if wi2 < 1 { 1 } else { wi2 };
        let w2d: i64 = if wj2 < 1 { 1 } else { wj2 };
        proof {
            lemma_abs_mul(wj2 as int, 1000);
            lemma_abs_mul(wi2 as int, 1000);
            lemma_tdiv_abs(wj2 as int * 1000, w1d as int);
            lemma_tdiv_abs(wi2 as int * 1000, w2d as int);
            lemma_div_mono(absi(wj2 as int * 1000), 10_000_000_000, w1d as int);
            lemma_div_mono(absi(wi2 as int * 1000), 10_000_000_000, w2d as int);
            vstd::arithmetic::div_mod::lemma_div_is_ordered_by_denominator(
                10_000_000_000, 1000, w1d as int);
            vstd::arithmetic::div_mod::lemma_div_is_ordered_by_denominator(
                10_000_000_000, 1000, w2d as int);
            assert(10_000_000_000int / 1000int == 10_000_000int) by (nonlinear_arith);
        }
        let infl_i: i64 = tdiv_i(wj2 * 1000, w1d);
        let infl_j: i64 = tdiv_i(wi2 * 1000, w2d);
        proof {
            lemma_prod_bound(bj.position.x as int, infl_i as int, 4_200_000, 10_000_000,
                42_000_000_000_000, 42_000_000_000);
            lemma_prod_bound(bj.position.y as int, infl_i as int, 4_200_000, 10_000_000,
                42_000_000_000_000, 42_000_000_000);
            lemma_prod_bound(bi.position.x as int, infl_j as int, 4_200_000, 10_000_000,
                42_000_000_000_000, 42_000_000_000);
            lemma_prod_bound(bi.position.y as int, infl_j as int, 4_200_000, 10_000_000,
                42_000_000_000_000, 42_000_000_000);
        }
        let c_cx_i: i64 = fp_mul(bj.position.x, infl_i);
        let c_cy_i: i64 = fp_mul(bj.position.y, infl_i);
        let c_cx_j: i64 = fp_mul(bi.position.x, infl_j);
        let c_cy_j: i64 = fp_mul(bi.position.y, infl_j);
        proof {
            lemma_prod_bound(dx as int, sf as int, 8_400_000, 1_000_000,
                8_400_000_000_000, 8_400_000_000);
            lemma_prod_bound(dy as int, sf as int, 8_400_000, 1_000_000,
                8_400_000_000_000, 8_400_000_000);
        }
        let s1x: i64 = fp_mul(dx, sf);
        let s1y: i64 = fp_mul(dy, sf);
        proof {
            lemma_prod_bound(s1x as int, infl_i as int, 8_400_000_000, 10_000_000,
                84_000_000_000_000_000, 84_000_000_000_000);
            lemma_prod_bound(s1y as int, infl_i as int, 8_400_000_000, 10_000_000,
                84_000_000_000_000_000, 84_000_000_000_000);
        }
        let c_sx_i: i64 = fp_mul(s1x, infl_i);
        let c_sy_i: i64 = fp_mul(s1y, infl_i);
        let s2x: i64 = -s1x;
        let s2y: i64 = -s1y;
        proof {
            lemma_prod_bound(s2x as int, infl_j as int, 8_400_000_000, 10_000_000,
                84_000_000_000_000_000, 84_000_000_000_000);
            lemma_prod_bound(s2y as int, infl_j as int, 8_400_000_000, 10_000_000,
                84_000_000_000_000_000, 84_000_000_000_000);
        }
        let c_sx_j: i64 = fp_mul(s2x, infl_j);
        let c_sy_j: i64 = fp_mul(s2y, infl_j);
        proof {
            lemma_prod_bound(bj.velocity.x as int, af as int, 2_000_000, 1000,
                2_000_000_000, 2_000_000);
            lemma_prod_bound(bj.velocity.y as int, af as int, 2_000_000, 1000,
                2_000_000_000, 2_000_000);
            lemma_prod_bound(bi.velocity.x as int, af as int, 2_000_000, 1000,
                2_000_000_000, 2_000_000);
            lemma_prod_bound(bi.velocity.y as int, af as int, 2_000_000, 1000,
                2_000_000_000, 2_000_000);
        }
        let a1x_i: i64 = fp_mul(bj.velocity.x, af);
        let a1y_i: i64 = fp_mul(bj.velocity.y, af);
        let a1x_j: i64 = fp_mul(bi.velocity.x, af);
        let a1y_j: i64 = fp_mul(bi.velocity.y, af);
        proof {
            lemma_prod_bound(a1x_i as int, infl_i as int, 2_000_000, 10_000_000,
                20_000_000_000_000, 20_000_000_000);
            lemma_prod_bound(a1y_i as int, infl_i as int, 2_000_000, 10_000_000,
                20_000_000_000_000, 20_000_000_000);
            lemma_prod_bound(a1x_j as int, infl_j as int, 2_000_000, 10_000_000,
                20_000_000_000_000, 20_000_000_000);
            lemma_prod_bound(a1y_j as int, infl_j as int, 2_000_000, 10_000_000,
                20_000_000_000_000, 20_000_000_000);
        }
        let c_ax_i: i64 = fp_mul(a1x_i, infl_i);
        let c_ay_i: i64 = fp_mul(a1y_i, infl_i);
        let c_ax_j: i64 = fp_mul(a1x_j, infl_j);
        let c_ay_j: i64 = fp_mul(a1y_j, infl_j);
        if ci0 < NBR_CAP {
            let mut ci: Calculations = self.calcs[i];
            ci.neighbours = ci.neighbours + 1;
            proof {
                lemma_bump_bound(ci.cohesion.x as int, c_cx_i as int, old(self).calcs@[i as int].neighbours as int, TERM_C as int);
                lemma_bump_bound(ci.cohesion.y as int, c_cy_i as int, old(self).calcs@[i as int].neighbours as int, TERM_C as int);
                lemma_bump_bound(ci.separation.x as int, c_sx_i as int, old(self).calcs@[i as int].neighbours as int, TERM_S as int);
                lemma_bump_bound(ci.separation.y as int, c_sy_i as int, old(self).calcs@[i as int].neighbours as int, TERM_S as int);
                lemma_bump_bound(ci.alignment.x as int, c_ax_i as int, old(self).calcs@[i as int].neighbours as int, TERM_C as int);
                lemma_bump_bound(ci.alignment.y as int, c_ay_i as int, old(self).calcs@[i as int].neighbours as int, TERM_C as int);
            }
            ci.cohesion = V2 { x: ci.cohesion.x + c_cx_i, y: ci.cohesion.y + c_cy_i };
            ci.separation = V2 { x: ci.separation.x + c_sx_i, y: ci.separation.y + c_sy_i };
            ci.alignment = V2 { x: ci.alignment.x + c_ax_i, y: ci.alignment.y + c_ay_i };
            self.calcs.set(i, ci);
        }
        if cj0 < NBR_CAP {
            let mut cj: Calculations = self.calcs[j];
            cj.neighbours = cj.neighbours + 1;
            proof {
                lemma_bump_bound(cj.cohesion.x as int, c_cx_j as int, old(self).calcs@[j as int].neighbours as int, TERM_C as int);
                lemma_bump_bound(cj.cohesion.y as int, c_cy_j as int, old(self).calcs@[j as int].neighbours as int, TERM_C as int);
                lemma_bump_bound(cj.separation.x as int, c_sx_j as int, old(self).calcs@[j as int].neighbours as int, TERM_S as int);
                lemma_bump_bound(cj.separation.y as int, c_sy_j as int, old(self).calcs@[j as int].neighbours as int, TERM_S as int);
                lemma_bump_bound(cj.alignment.x as int, c_ax_j as int, old(self).calcs@[j as int].neighbours as int, TERM_C as int);
                lemma_bump_bound(cj.alignment.y as int, c_ay_j as int, old(self).calcs@[j as int].neighbours as int, TERM_C as int);
            }
            cj.cohesion = V2 { x: cj.cohesion.x + c_cx_j, y: cj.cohesion.y + c_cy_j };
            cj.separation = V2 { x: cj.separation.x + c_sx_j, y: cj.separation.y + c_sy_j };
            cj.alignment = V2 { x: cj.alignment.x + c_ax_j, y: cj.alignment.y + c_ay_j };
            self.calcs.set(j, cj);
        }
        proof {
            lemma_dist_sym(old(self).boids@[i as int], old(self).boids@[j as int]);
            lemma_sim_sym(old(self).boids@[i as int].velocity, old(self).boids@[j as int].velocity);
            assert((-(dx as int)) * (sf as int) == -((dx as int) * (sf as int)))
                by (nonlinear_arith);
            assert((-(dy as int)) * (sf as int) == -((dy as int) * (sf as int)))
                by (nonlinear_arith);
            crate::fixed::lemma_tdiv_neg((dx as int) * (sf as int), 1000);
            crate::fixed::lemma_tdiv_neg((dy as int) * (sf as int), 1000);
        }
    }

    /// No other agent stands within view of agent `k`.
    pub open spec fn isolated(self, p: Parameters, k: int) -> bool {
        forall|l: int|
            0 <= l < self.boids@.len() && l != k
                ==> !within_view(p, self.boids@[k], self.boids@[l])
    }

    /// The pairwise scan: walk every unordered pair of distinct agents,
    /// skip each with probability one minus the fidelity, and fold the
    /// mutual contributions of the surviving pairs into the accumulators.
    pub fn scan_pairs(&mut self, p: &Parameters)
        requires
            old(self).wf(),
            p.valid(),
        ensures
            final(self).wf(),
            final(self).boids@ == old(self).boids@,
            final(self).calcs@.len() == old(self).calcs@.len(),
            p.fidelity == 0 ==> final(self).calcs@ == old(self).calcs@,
            forall|k: int|
                0 <= k < old(self).calcs@.len()
                    ==> (#[trigger] final(self).calcs@[k]).neighbours
                        >= old(self).calcs@[k].neighbours,
            p.fidelity == 1000 ==> forall|a: int, b: int|
                0 <= a < b < old(self).boids@.len()
                    && #[trigger] within_view(*p, old(self).boids@[a], old(self).boids@[b])
                    ==> final(self).calcs@[a].neighbours >= 1
                        && final(self).calcs@[b].neighbours >= 1,
            forall|k: int|
                0 <= k < old(self).boids@.len() && old(self).isolated(*p, k)
                    ==> final(self).calcs@[k] == old(self).calcs@[k],
    {
        let n: usize = self.boids.len();
        let mut i: usize = 0;
        while i < n
            invariant
                self.wf(),
                p.valid(),
                n == self.boids@.len(),
                i <= n,
                self.boids@ == old(self).boids@,
                self.calcs@.len() == old(self).calcs@.len(),
                p.fidelity == 0 ==> self.calcs@ == old(self).calcs@,
                forall|k: int|
                    0 <= k < old(self).calcs@.len()
                        ==> (#[trigger] self.calcs@[k]).neighbours
                            >= old(self).calcs@[k].neighbours,
                p.fidelity == 1000 ==> forall|a: int, b: int|
                    0 <= a < b < n && a < i
                        && #[trigger] within_view(*p, old(self).boids@[a], old(self).boids@[b])
                        ==> self.calcs@[a].neighbours >= 1 && self.calcs@[b].neighbours >= 1,
                forall|k: int|
                    0 <= k < n && old(self).isolated(*p, k)
                        ==> self.calcs@[k] == old(self).calcs@[k],
            decreases n - i,
        {
            let mut j: usize = i + 1;
            while j < n
                invariant
                    self.wf(),
                    p.valid(),
                    n == self.boids@.len(),
                    i < n,
                    i + 1 <= j <= n,
                    self.boids@ == old(self).boids@,
                    self.calcs@.len() == old(self).calcs@.len(),
                    p.fidelity == 0 ==> self.calcs@ == old(self).calcs@,
                    forall|k: int|
                        0 <= k < old(self).calcs@.len()
                            ==> (#[trigger] self.calcs@[k]).neighbours
                                >= old(self).calcs@[k].neighbours,
                    p.fidelity == 1000 ==> forall|a: int, b: int|
                        0 <= a < b < n && (a < i || (a == i && b < j))
                            && #[trigger] within_view(*p, old(self).boids@[a], old(self).boids@[b])
                            ==> self.calcs@[a].neighbours >= 1 && self.calcs@[b].neighbours >= 1,
                    forall|k: int|
                        0 <= k < n && old(self).isolated(*p, k)
                            ==> self.calcs@[k] == old(self).calcs@[k],
                decreases n - j,
            {
                let ghost before = *self;
                let u: i64 = crate::rng::rng_range(1, 1000);
                if u <= p.fidelity {
                    self.pair_eval(p, i, j);
                    proof {
                        lemma_dist_sym(old(self).boids@[i as int], old(self).boids@[j as int]);
                        if old(self).isolated(*p, i as int) {
                            assert(!within_view(*p, old(self).boids@[i as int],
                                old(self).boids@[j as int]));
                        }
                        if old(self).isolated(*p, j as int) {
                            assert(!within_view(*p, old(self).boids@[j as int],
                                old(self).boids@[i as int]));
                            assert(dist_sq_b(old(self).boids@[i as int],
                                old(self).boids@[j as int]) == dist_sq_b(
                                old(self).boids@[j as int], old(self).boids@[i as int]));
                        }
                    }
                }
                j = j + 1;
            }
            i = i + 1;
        }
    }

    /// Spec of the steering update of one agent: average-and-negate the
    /// cohesion sum, clamp each steering vector to the steering force, add
    /// the weighted steering to the velocity, then clamp its speed.
    pub open spec fn steered_velocity(p: Parameters, c: Calculations, vel: V2) -> (int, int) {
        let n = c.neighbours as int;
        let coh = crate::vec2::clamp_len_max_s(
            -tdiv(c.cohesion.x as int, n),
            -tdiv(c.cohesion.y as int, n),
            p.steering_force as int,
        );
        let sep = crate::vec2::clamp_len_max_s(
            c.separation.x as int,
            c.separation.y as int,
            p.steering_force as int,
        );
        let ali = crate::vec2::clamp_len_max_s(
            c.alignment.x as int,
            c.alignment.y as int,
            p.steering_force as int,
        );
        let sx = vel.x + tdiv(p.cohesion_force as int * coh.0, 1000)
            + tdiv(p.separation_force as int * sep.0, 1000)
            + tdiv(p.alignment_force as int * ali.0, 1000);
        let sy = vel.y + tdiv(p.cohesion_force as int * coh.1, 1000)
            + tdiv(p.separation_force as int * sep.1, 1000)
            + tdiv(p.alignment_force as int * ali.1, 1000);
        crate::vec2::clamp_speed_s(sx, sy, p.min_speed as int, p.max_speed as int)
    }

    /// Fold the accumulated neighbour contributions of this tick into every
    /// agent's velocity and reset the accumulators; agents that recorded no
    /// neighbour are untouched.
    #[verifier::rlimit(100)]
    pub fn apply_steering(&mut self, p: &Parameters)
        requires
            old(self).wf(),
            p.valid(),
        ensures
            final(self).wf(),
            final(self).boids@.len() == old(self).boids@.len(),
            final(self).calcs@.len() == old(self).calcs@.len(),
            forall|k: int|
                0 <= k < old(self).boids@.len()
                    ==> (#[trigger] final(self).boids@[k]).position
                        == old(self).boids@[k].position,
            forall|k: int|
                0 <= k < old(self).boids@.len()
                    ==> (#[trigger] final(self).boids@[k]).weight == old(self).boids@[k].weight,
            forall|k: int|
                0 <= k < old(self).boids@.len() && old(self).calcs@[k].neighbours == 0
                    ==> #[trigger] final(self).boids@[k] == old(self).boids@[k],
            forall|k: int|
                0 <= k < old(self).calcs@.len() && old(self).calcs@[k].neighbours == 0
                    ==> #[trigger] final(self).calcs@[k] == old(self).calcs@[k],
            forall|k: int|
                0 <= k < old(self).boids@.len() && old(self).calcs@[k].neighbours > 0 ==> (
                (#[trigger] final(self).boids@[k]).velocity.x as int,
                final(self).boids@[k].velocity.y as int,
            ) == Flock::steered_velocity(*p, old(self).calcs@[k], old(self).boids@[k].velocity),
            forall|k: int|
                0 <= k < old(self).calcs@.len() && old(self).calcs@[k].neighbours > 0
                    ==> (#[trigger] final(self).calcs@[k]).is_zero(),
    {
        let n: usize = self.boids.len();
        let mut k: usize = 0;
        while k < n
            invariant
                self.wf(),
                p.valid(),
                n == self.boids@.len(),
                k <= n,
                self.boids@.len() == old(self).boids@.len(),
                self.calcs@.len() == old(self).calcs@.len(),
                forall|t: int|
                    k <= t < n ==> (#[trigger] self.boids@[t]) == old(self).boids@[t],
                forall|t: int|
                    k <= t < n ==> (#[trigger] self.calcs@[t]) == old(self).calcs@[t],
                forall|t: int|
                    0 <= t < k ==> (#[trigger] self.boids@[t]).position
                        == old(self).boids@[t].position,
                forall|t: int|
                    0 <= t < k ==> (#[trigger] self.boids@[t]).weight
                        == old(self).boids@[t].weight,
                forall|t: int|
                    0 <= t < k && old(self).calcs@[t].neighbours == 0
                        ==> #[trigger] self.boids@[t] == old(self).boids@[t],
                forall|t: int|
                    0 <= t < k && old(self).calcs@[t].neighbours == 0
                        ==> #[trigger] self.calcs@[t] == old(self).calcs@[t],
                forall|t: int|
                    0 <= t < k && old(self).calcs@[t].neighbours > 0 ==> (
                    (#[trigger] self.boids@[t]).velocity.x as int,
                    self.boids@[t].velocity.y as int,
                ) == Flock::steered_velocity(*p, old(self).calcs@[t], old(self).boids@[t].velocity),
                forall|t: int|
                    0 <= t < k && old(self).calcs@[t].neighbours > 0
                        ==> (#[trigger] self.calcs@[t]).is_zero(),
            decreases n - k,
        {
            let c: Calculations = self.calcs[k];
            if c.neighbours > 0 {
                let b: Boid = self.boids[k];
                let avx: i64 = tdiv_i(c.cohesion.x, c.neighbours);
                let avy: i64 = tdiv_i(c.cohesion.y, c.neighbours);
                proof {
                    lemma_tdiv_abs(c.cohesion.x as int, c.neighbours as int);
                    lemma_tdiv_abs(c.cohesion.y as int, c.neighbours as int);
                    assert(absi(c.cohesion.x as int) <= 2_000_000_000_000_000_000
                        && absi(c.separation.x as int) <= 2_000_000_000_000_000_000
                        && absi(c.alignment.x as int) <= 2_000_000_000_000_000_000
                        && absi(c.cohesion.y as int) <= 2_000_000_000_000_000_000
                        && absi(c.separation.y as int) <= 2_000_000_000_000_000_000
                        && absi(c.alignment.y as int) <= 2_000_000_000_000_000_000) by {
                        assert(c.neighbours as int * TERM_C as int
                            <= 20_000int * 50_000_000_000int) by (nonlinear_arith)
                            requires
                                0 <= c.neighbours as int <= 20_000,
                        ;
                        assert(c.neighbours as int * TERM_S as int
                            <= 20_000int * 100_000_000_000_000int) by (nonlinear_arith)
                            requires
                                0 <= c.neighbours as int <= 20_000,
                        ;
                    }
                }
                let coh: V2 = crate::vec2::clamp_len_max(
                    V2 { x: -avx, y: -avy },
                    p.steering_force,
                );
                let sep: V2 = crate::vec2::clamp_len_max(c.separation, p.steering_force);
                let ali: V2 = crate::vec2::clamp_len_max(c.alignment, p.steering_force);
                proof {
                    lemma_prod_bound(p.cohesion_force as int, coh.x as int, 100_000, 100_000,
                        10_000_000_000, 10_000_000);
                    lemma_prod_bound(p.cohesion_force as int, coh.y as int, 100_000, 100_000,
                        10_000_000_000, 10_000_000);
                    lemma_prod_bound(p.separation_force as int, sep.x as int, 100_000, 100_000,
                        10_000_000_000, 10_000_000);
                    lemma_prod_bound(p.separation_force as int, sep.y as int, 100_000, 100_000,
                        10_000_000_000, 10_000_000);
                    lemma_prod_bound(p.alignment_force as int, ali.x as int, 100_000, 100_000,
                        10_000_000_000, 10_000_000);
                    lemma_prod_bound(p.alignment_force as int, ali.y as int, 100_000, 100_000,
                        10_000_000_000, 10_000_000);
                }
                let fx: i64 = b.velocity.x + fp_mul(p.cohesion_force, coh.x)
                    + fp_mul(p.separation_force, sep.x) + fp_mul(p.alignment_force, ali.x);
                let fy: i64 = b.velocity.y + fp_mul(p.cohesion_force, coh.y)
                    + fp_mul(p.separation_force, sep.y) + fp_mul(p.alignment_force, ali.y);
                let v2: V2 = crate::vec2::clamp_speed(V2 { x: fx, y: fy }, p.min_speed, p.max_speed);
                let mut b2: Boid = b;
                b2.velocity = v2;
                self.boids.set(k, b2);
                let mut c2: Calculations = c;
                c2.reset();
                self.calcs.set(k, c2);
            }
            k = k + 1;
        }
    }

    /// One full flocking step: the pairwise scan followed by the steering
    /// application.  Positions and weights never change here; with fidelity
    /// zero no pair is evaluated and velocities are unchanged.
    pub fn flock(&mut self, p: &Parameters)
        requires
            old(self).wf(),
            p.valid(),
        ensures
            final(self).wf(),
            final(self).boids@.len() == old(self).boids@.len(),
            forall|k: int|
                0 <= k < old(self).boids@.len() ==> {
                    &&& (#[trigger] final(self).boids@[k]).position == old(self).boids@[k].position
                    &&& final(self).boids@[k].weight == old(self).boids@[k].weight
                },
            p.fidelity == 0 && old(self).calcs_zero() ==> final(self).boids@ == old(self).boids@
                && final(self).calcs_zero(),
            old(self).calcs_zero() ==> final(self).calcs_zero(),
            forall|k: int|
                0 <= k < old(self).boids@.len() && old(self).isolated(*p, k)
                    && old(self).calcs@[k].neighbours == 0
                    ==> #[trigger] final(self).boids@[k] == old(self).boids@[k],
            forall|k: int|
                0 <= k < old(self).boids@.len() && p.fidelity == 1000 && 2 <= p.min_speed && 2
                    * p.min_speed + 4 <= p.max_speed && (exists|l: int|
                    0 <= l < old(self).boids@.len() && l != k && within_view(
                        *p,
                        old(self).boids@[k],
                        old(self).boids@[l],
                    )) && !(#[trigger] final(self).boids@[k]).velocity.is_zero()
                    ==> p.min_speed * p.min_speed <= final(self).boids@[k].velocity.len_sq()
                        <= p.max_speed * p.max_speed,
    {
        let ghost pre = *self;
        self.scan_pairs(p);
        let ghost mid = *self;
        self.apply_steering(p);
        proof {
            if pre.calcs_zero() {
                assert forall|k: int| 0 <= k < self.calcs@.len() implies
                    (#[trigger] self.calcs@[k]).is_zero() by {
                    if mid.calcs@[k].neighbours == 0 {
                        assert(self.calcs@[k] == mid.calcs@[k]);
                        assert(mid.calcs@[k].valid());
                        assert(mid.calcs@[k].neighbours as int * TERM_C as int == 0)
                            by (nonlinear_arith)
                            requires
                                mid.calcs@[k].neighbours as int == 0,
                        ;
                        assert(mid.calcs@[k].neighbours as int * TERM_S as int == 0)
                            by (nonlinear_arith)
                            requires
                                mid.calcs@[k].neighbours as int == 0,
                        ;
                        assert(mid.calcs@[k].is_zero());
                    }
                }
            }
            if p.fidelity == 0 && pre.calcs_zero() {
                assert(self.boids@ =~= pre.boids@);
            }
            if p.fidelity == 1000 && 2 <= p.min_speed && 2 * p.min_speed + 4 <= p.max_speed {
                assert forall|k: int|
                    0 <= k < pre.boids@.len() && (exists|l: int|
                        0 <= l < pre.boids@.len() && l != k && within_view(
                            *p,
                            pre.boids@[k],
                            pre.boids@[l],
                        )) && !(#[trigger] self.boids@[k]).velocity.is_zero() implies p.min_speed
                    * p.min_speed <= self.boids@[k].velocity.len_sq() <= p.max_speed
                    * p.max_speed by {
                    let l = choose|l: int|
                        0 <= l < pre.boids@.len() && l != k && within_view(
                            *p,
                            pre.boids@[k],
                            pre.boids@[l],
                        );
                    // orient the pair so that the scan's guarantee applies
                    lemma_dist_sym(pre.boids@[k], pre.boids@[l]);
                    if k < l {
                        assert(within_view(*p, pre.boids@[k], pre.boids@[l]));
                        assert(mid.calcs@[k].neighbours >= 1);
                    } else {
                        assert(within_view(*p, pre.boids@[l], pre.boids@[k]));
                        assert(mid.calcs@[k].neighbours >= 1);
                    }
                    assert((self.boids@[k].velocity.x as int, self.boids@[k].velocity.y as int)
                        == Flock::steered_velocity(*p, mid.calcs@[k], mid.boids@[k].velocity));
                    crate::laws::law_flocking_speed_band(*p, mid.calcs@[k], mid.boids@[k].velocity);
                    let r = Flock::steered_velocity(*p, mid.calcs@[k], mid.boids@[k].velocity);
                    if len_sq_s(r.0, r.1) == 0 {
                        assert(r.0 == 0 && r.1 == 0) by (nonlinear_arith)
                            requires
                                r.0 * r.0 + r.1 * r.1 == 0,
                        ;
                    }
                }
            }
        }
    }


    /// Enforce the viewport boundary on every agent, axis by axis.
    pub fn handle_walls(&mut self, p: &Parameters)
        requires
            old(self).wf(),
            p.valid(),
        ensures
            final(self).wf(),
            final(self).boids@.len() == old(self).boids@.len(),
            final(self).calcs@ == old(self).calcs@,
            forall|k: int|
                0 <= k < old(self).boids@.len()
                    ==> (#[trigger] final(self).boids@[k]).weight == old(self).boids@[k].weight,
            forall|k: int|
                0 <= k < old(self).boids@.len() ==> (
                (#[trigger] final(self).boids@[k]).position.x as int,
                final(self).boids@[k].velocity.x as int,
            ) == wall_axis(
                old(self).boids@[k].position.x as int,
                old(self).boids@[k].velocity.x as int,
                p.half_w(),
                p.bounce_off_walls,
            ),
            forall|k: int|
                0 <= k < old(self).boids@.len() ==> (
                (#[trigger] final(self).boids@[k]).position.y as int,
                final(self).boids@[k].velocity.y as int,
            ) == wall_axis(
                old(self).boids@[k].position.y as int,
                old(self).boids@[k].velocity.y as int,
                p.half_h(),
                p.bounce_off_walls,
            ),
    {
        let n: usize = self.boids.len();
        let hx: i64 = p.window_x_range().1;
        let hy: i64 = p.window_y_range().1;
        let mut k: usize = 0;
        while k < n
            invariant
                self.wf(),
                p.valid(),
                n == self.boids@.len(),
                k <= n,
                hx == p.half_w(),
                hy == p.half_h(),
                self.boids@.len() == old(self).boids@.len(),
                self.calcs@ == old(self).calcs@,
                forall|t: int| k <= t < n ==> (#[trigger] self.boids@[t]) == old(self).boids@[t],
                forall|t: int|
                    0 <= t < k ==> (#[trigger] self.boids@[t]).weight == old(self).boids@[t].weight,
                forall|t: int|
                    0 <= t < k ==> (
                    (#[trigger] self.boids@[t]).position.x as int,
                    self.boids@[t].velocity.x as int,
                ) == wall_axis(
                    old(self).boids@[t].position.x as int,
                    old(self).boids@[t].velocity.x as int,
                    p.half_w(),
                    p.bounce_off_walls,
                ),
                forall|t: int|
                    0 <= t < k ==> (
                    (#[trigger] self.boids@[t]).position.y as int,
                    self.boids@[t].velocity.y as int,
                ) == wall_axis(
                    old(self).boids@[t].position.y as int,
                    old(self).boids@[t].velocity.y as int,
                    p.half_h(),
                    p.bounce_off_walls,
                ),
            decreases n - k,
        {
            let mut b: Boid = self.boids[k];
            let x: i64 = b.position.x;
            let vx: i64 = b.velocity.x;
            let out_x: bool = x < -hx || x >= hx;
            let sgn_x: bool = (x > 0 && vx > 0) || (x < 0 && vx < 0) || (x == 0 && vx == 0);
            if out_x && sgn_x {
                if p.bounce_off_walls {
                    b.velocity = V2 { x: -vx, y: b.velocity.y };
                } else {
                    b.position = V2 { x: -x, y: b.position.y };
                }
            }
            let y: i64 = b.position.y;
            let vy: i64 = b.velocity.y;
            let out_y: bool = y < -hy || y >= hy;
            let sgn_y: bool = (y > 0 && vy > 0) || (y < 0 && vy < 0) || (y == 0 && vy == 0);
            if out_y && sgn_y {
                if p.bounce_off_walls {
                    b.velocity = V2 { x: b.velocity.x, y: -vy };
                } else {
                    b.position = V2 { x: b.position.x, y: -y };
                }
            }
            self.boids.set(k, b);
            k = k + 1;
        }
    }

    /// Advance every agent's position by its velocity over the elapsed time.
    pub fn fly(&mut self, dt: i64)
        requires
            old(self).wf(),
            0 <= dt <= 60_000,
        ensures
            final(self).wf(),
            final(self).boids@.len() == old(self).boids@.len(),
            final(self).calcs@ == old(self).calcs@,
            forall|k: int|
                0 <= k < old(self).boids@.len()
                    ==> (#[trigger] final(self).boids@[k]).velocity == old(self).boids@[k].velocity
                        && final(self).boids@[k].weight == old(self).boids@[k].weight,
            forall|k: int|
                0 <= k < old(self).boids@.len()
                    ==> (#[trigger] final(self).boids@[k]).position.x as int == fly_pos(
                        old(self).boids@[k].position.x as int,
                        old(self).boids@[k].velocity.x as int,
                        dt as int,
                    ) && final(self).boids@[k].position.y as int == fly_pos(
                        old(self).boids@[k].position.y as int,
                        old(self).boids@[k].velocity.y as int,
                        dt as int,
                    ),
    {
        let n: usize = self.boids.len();
        let mut k: usize = 0;
        while k < n
            invariant
                self.wf(),
                n == self.boids@.len(),
                0 <= dt <= 60_000,
                k <= n,
                self.boids@.len() == old(self).boids@.len(),
                self.calcs@ == old(self).calcs@,
                forall|t: int| k <= t < n ==> (#[trigger] self.boids@[t]) == old(self).boids@[t],
                forall|t: int|
                    0 <= t < k ==> (#[trigger] self.boids@[t]).velocity
                        == old(self).boids@[t].velocity
                        && self.boids@[t].weight == old(self).boids@[t].weight,
                forall|t: int|
                    0 <= t < k ==> (#[trigger] self.boids@[t]).position.x as int == fly_pos(
                        old(self).boids@[t].position.x as int,
                        old(self).boids@[t].velocity.x as int,
                        dt as int,
                    ) && self.boids@[t].position.y as int == fly_pos(
                        old(self).boids@[t].position.y as int,
                        old(self).boids@[t].velocity.y as int,
                        dt as int,
                    ),
            decreases n - k,
        {
            let mut b: Boid = self.boids[k];
            proof {
                lemma_prod_bound(b.velocity.x as int, dt as int, 2_000_000, 60_000,
                    120_000_000_000, 120_000_000);
                lemma_prod_bound(b.velocity.y as int, dt as int, 2_000_000, 60_000,
                    120_000_000_000, 120_000_000);
            }
            let mx: i64 = fp_mul(b.velocity.x, dt);
            let my: i64 = fp_mul(b.velocity.y, dt);
            let nx0: i64 = b.position.x + mx;
            let ny0: i64 = b.position.y + my;
            let nx: i64 = if nx0 < -POS_LIMIT {
                -POS_LIMIT
            } else if nx0 > POS_LIMIT {
                POS_LIMIT
            } else {
                nx0
            };
            let ny: i64 = if ny0 < -POS_LIMIT {
                -POS_LIMIT
            } else if ny0 > POS_LIMIT {
                POS_LIMIT
            } else {
                ny0
            };
            b.position = V2 { x: nx, y: ny };
            self.boids.set(k, b);
            k = k + 1;
        }
    }

    /// Pull every agent near the pointer toward it, or push it away.
    pub fn handle_mouse(&mut self, p: &Parameters, pointer: V2, attract: bool)
        requires
            old(self).wf(),
            p.valid(),
            pointer.ok_mag(POS_LIMIT as int),
        ensures
            final(self).wf(),
            final(self).boids@.len() == old(self).boids@.len(),
            final(self).calcs@ == old(self).calcs@,
            forall|k: int|
                0 <= k < old(self).boids@.len()
                    ==> (#[trigger] final(self).boids@[k]).position == old(self).boids@[k].position
                        && final(self).boids@[k].weight == old(self).boids@[k].weight,
            forall|k: int|
                0 <= k < old(self).boids@.len() ==> (
                (#[trigger] final(self).boids@[k]).velocity.x as int,
                final(self).boids@[k].velocity.y as int,
            ) == mouse_vel(*p, old(self).boids@[k], pointer, attract),
    {
        let n: usize = self.boids.len();
        let mut k: usize = 0;
        while k < n
            invariant
                self.wf(),
                p.valid(),
                pointer.ok_mag(POS_LIMIT as int),
                n == self.boids@.len(),
                k <= n,
                self.boids@.len() == old(self).boids@.len(),
                self.calcs@ == old(self).calcs@,
                forall|t: int| k <= t < n ==> (#[trigger] self.boids@[t]) == old(self).boids@[t],
                forall|t: int|
                    0 <= t < k ==> (#[trigger] self.boids@[t]).position
                        == old(self).boids@[t].position
                        && self.boids@[t].weight == old(self).boids@[t].weight,
                forall|t: int|
                    0 <= t < k ==> (
                    (#[trigger] self.boids@[t]).velocity.x as int,
                    self.boids@[t].velocity.y as int,
                ) == mouse_vel(*p, old(self).boids@[t], pointer, attract),
            decreases n - k,
        {
            let mut b: Boid = self.boids[k];
            let dx: i64 = pointer.x - b.position.x;
            let dy: i64 = pointer.y - b.position.y;
            proof {
                lemma_sq_nonneg(dx as int);
                lemma_sq_nonneg(dy as int);
                assert(absi(dx as int) * absi(dx as int) <= 100_000_000_000_000
                    && absi(dy as int) * absi(dy as int) <= 100_000_000_000_000)
                    by (nonlinear_arith)
                    requires
                        0 <= absi(dx as int) <= 10_000_000,
                        0 <= absi(dy as int) <= 10_000_000,
                ;
            }
            let dsq: i64 = dx * dx + dy * dy;
            let dist: i64 = isqrt(dsq);
            if dist <= 4 * p.view_distance {
                let tx: i64 = if attract { dx } else { -dx };
                let ty: i64 = if attract { dy } else { -dy };
                proof {
                    lemma_prod_bound(tx as int, p.steering_force as int, 10_000_000, 100_000,
                        1_000_000_000_000, 1_000_000_000);
                    lemma_prod_bound(ty as int, p.steering_force as int, 10_000_000, 100_000,
                        1_000_000_000_000, 1_000_000_000);
                }
                let t1x: i64 = fp_mul(tx, p.steering_force);
                let t1y: i64 = fp_mul(ty, p.steering_force);
                proof {
                    lemma_prod_bound(t1x as int, p.cohesion_force as int, 1_000_000_000, 100_000,
                        100_000_000_000_000, 100_000_000_000);
                    lemma_prod_bound(t1y as int, p.cohesion_force as int, 1_000_000_000, 100_000,
                        100_000_000_000_000, 100_000_000_000);
                }
                let t2x: i64 = fp_mul(t1x, p.cohesion_force);
                let t2y: i64 = fp_mul(t1y, p.cohesion_force);
                proof {
                    lemma_prod_bound(t2x as int, 500, 100_000_000_000, 500,
                        50_000_000_000_000, 50_000_000_000);
                    lemma_prod_bound(t2y as int, 500, 100_000_000_000, 500,
                        50_000_000_000_000, 50_000_000_000);
                }
                let gx: i64 = fp_mul(t2x, 500);
                let gy: i64 = fp_mul(t2y, 500);
                let nv: V2 = crate::vec2::clamp_len_max(
                    V2 { x: b.velocity.x + gx, y: b.velocity.y + gy },
                    p.max_speed,
                );
                b.velocity = nv;
                self.boids.set(k, b);
            }
            k = k + 1;
        }
    }

    /// Reconcile the stored viewport extent with a reported one, clamping
    /// every agent into the new bounds when the extent changed.
    pub fn window_resize(&mut self, p: &mut Parameters, width: i64, height: i64)
        requires
            old(self).wf(),
            old(p).valid(),
            0 < width <= 8_000_000,
            0 < height <= 8_000_000,
        ensures
            final(self).wf(),
            final(p).valid(),
            width == old(p).window_width && height == old(p).window_height ==> *final(p) == *old(
                p,
            ) && *final(self) == *old(self),
            width != old(p).window_width || height != old(p).window_height ==> {
                &&& final(p).window_width == width
                &&& final(p).window_height == height
                &&& final(p).number_of_boids == old(p).number_of_boids
                &&& final(p).view_distance == old(p).view_distance
                &&& final(p).cohesion_force == old(p).cohesion_force
                &&& final(p).separation_force == old(p).separation_force
                &&& final(p).separation_bias == old(p).separation_bias
                &&& final(p).alignment_bias == old(p).alignment_bias
                &&& final(p).alignment_force == old(p).alignment_force
                &&& final(p).steering_force == old(p).steering_force
                &&& final(p).fidelity == old(p).fidelity
                &&& final(p).min_speed == old(p).min_speed
                &&& final(p).max_speed == old(p).max_speed
                &&& final(p).bounce_off_walls == old(p).bounce_off_walls
            },
            final(self).boids@.len() == old(self).boids@.len(),
            final(self).calcs@ == old(self).calcs@,
            forall|k: int|
                0 <= k < old(self).boids@.len()
                    ==> (#[trigger] final(self).boids@[k]).velocity == old(self).boids@[k].velocity
                        && final(self).boids@[k].weight == old(self).boids@[k].weight,
            width != old(p).window_width || height != old(p).window_height ==> forall|k: int|
                0 <= k < old(self).boids@.len()
                    ==> (#[trigger] final(self).boids@[k]).position.x as int == clampi(
                        old(self).boids@[k].position.x as int,
                        -final(p).half_w(),
                        final(p).half_w(),
                    ) && final(self).boids@[k].position.y as int == clampi(
                        old(self).boids@[k].position.y as int,
                        -final(p).half_h(),
                        final(p).half_h(),
                    ),
            forall|k: int|
                0 <= k < final(self).boids@.len()
                    && (width != old(p).window_width || height != old(p).window_height)
                    ==> -final(p).half_w() <= (#[trigger] final(self).boids@[k]).position.x
                        <= final(p).half_w() && -final(p).half_h()
                        <= final(self).boids@[k].position.y <= final(p).half_h(),
    {
        if width == p.window_width && height == p.window_height {
            return ;
        }
        p.window_width = width;
        p.window_height = height;
        let hx: i64 = p.window_x_range().1;
        let hy: i64 = p.window_y_range().1;
        let n: usize = self.boids.len();
        let mut k: usize = 0;
        while k < n
            invariant
                self.wf(),
                n == self.boids@.len(),
                k <= n,
                p.valid(),
                hx == p.half_w(),
                hy == p.half_h(),
                0 <= hx <= 4_000_000,
                0 <= hy <= 4_000_000,
                self.boids@.len() == old(self).boids@.len(),
                self.calcs@ == old(self).calcs@,
                forall|t: int| k <= t < n ==> (#[trigger] self.boids@[t]) == old(self).boids@[t],
                forall|t: int|
                    0 <= t < k ==> (#[trigger] self.boids@[t]).velocity
                        == old(self).boids@[t].velocity
                        && self.boids@[t].weight == old(self).boids@[t].weight,
                forall|t: int|
                    0 <= t < k ==> (#[trigger] self.boids@[t]).position.x as int == clampi(
                        old(self).boids@[t].position.x as int,
                        -p.half_w(),
                        p.half_w(),
                    ) && self.boids@[t].position.y as int == clampi(
                        old(self).boids@[t].position.y as int,
                        -p.half_h(),
                        p.half_h(),
                    ),
                forall|t: int|
                    0 <= t < k ==> -p.half_w() <= (#[trigger] self.boids@[t]).position.x
                        <= p.half_w() && -p.half_h() <= self.boids@[t].position.y <= p.half_h(),
            decreases n - k,
        {
            let mut b: Boid = self.boids[k];
            let nx: i64 = if b.position.x < -hx {
                -hx
            } else if b.position.x > hx {
                hx
            } else {
                b.position.x
            };
            let ny: i64 = if b.position.y < -hy {
                -hy
            } else if b.position.y > hy {
                hy
            } else {
                b.position.y
            };
            b.position = V2 { x: nx, y: ny };
            self.boids.set(k, b);
            k = k + 1;
        }
    }

    /// Spawn agents with random positions inside the viewport, random
    /// velocities within the speed limit, and the given weights.
    pub fn spawn_boids(&mut self, p: &Parameters, how_many: usize, weights: &Vec<i64>)
        requires
            old(self).wf(),
            p.valid(),
            old(self).boids@.len() + how_many <= 4096,
            weights@.len() >= how_many,
            forall|t: int| 0 <= t < weights@.len() ==> 1000 <= #[trigger] weights@[t] <= W_LIMIT,
        ensures
            final(self).wf(),
            final(self).boids@.len() == old(self).boids@.len() + how_many,
            forall|k: int|
                0 <= k < old(self).boids@.len()
                    ==> (#[trigger] final(self).boids@[k]) == old(self).boids@[k],
            forall|k: int|
                0 <= k < old(self).calcs@.len()
                    ==> (#[trigger] final(self).calcs@[k]) == old(self).calcs@[k],
            forall|k: int|
                old(self).boids@.len() <= k < final(self).boids@.len() ==> {
                    &&& (#[trigger] final(self).calcs@[k]).is_zero()
                    &&& final(self).boids@[k].weight
                        == weights@[k - old(self).boids@.len()]
                    &&& -p.half_w() <= final(self).boids@[k].position.x <= p.half_w()
                    &&& -p.half_h() <= final(self).boids@[k].position.y <= p.half_h()
                    &&& -p.max_speed <= final(self).boids@[k].velocity.x <= p.max_speed
                    &&& -p.max_speed <= final(self).boids@[k].velocity.y <= p.max_speed
                },
            old(self).calcs_zero() ==> final(self).calcs_zero(),
    {
        let xr: (i64, i64) = p.window_x_range();
        let yr: (i64, i64) = p.window_y_range();
        let n0: usize = self.boids.len();
        let mut t: usize = 0;
        while t < how_many
            invariant
                self.wf(),
                p.valid(),
                n0 == old(self).boids@.len(),
                t <= how_many,
                n0 + how_many <= 4096,
                weights@.len() >= how_many,
                forall|u: int| 0 <= u < weights@.len() ==> 1000 <= #[trigger] weights@[u] <= W_LIMIT,
                xr.0 == -p.half_w(),
                xr.1 == p.half_w(),
                yr.0 == -p.half_h(),
                yr.1 == p.half_h(),
                0 <= xr.1 <= 4_000_000,
                0 <= yr.1 <= 4_000_000,
                self.boids@.len() == n0 + t,
                self.calcs@.len() == n0 + t,
                forall|k: int| 0 <= k < n0 ==> (#[trigger] self.boids@[k]) == old(self).boids@[k],
                forall|k: int| 0 <= k < n0 ==> (#[trigger] self.calcs@[k]) == old(self).calcs@[k],
                forall|k: int|
                    n0 <= k < n0 + t ==> {
                        &&& (#[trigger] self.calcs@[k]).is_zero()
                        &&& self.boids@[k].weight == weights@[k - n0]
                        &&& -p.half_w() <= self.boids@[k].position.x <= p.half_w()
                        &&& -p.half_h() <= self.boids@[k].position.y <= p.half_h()
                        &&& -p.max_speed <= self.boids@[k].velocity.x <= p.max_speed
                        &&& -p.max_speed <= self.boids@[k].velocity.y <= p.max_speed
                    },
            decreases how_many - t,
        {
            let px: i64 = crate::rng::rng_range(xr.0, xr.1);
            let py: i64 = crate::rng::rng_range(yr.0, yr.1);
            let vx: i64 = crate::rng::rng_range(-p.max_speed, p.max_speed);
            let vy: i64 = crate::rng::rng_range(-p.max_speed, p.max_speed);
            let w: i64 = weights[t];
            self.boids.push(Boid::new(px, py, vx, vy, w));
            self.calcs.push(Calculations::new());
            t = t + 1;
        }
    }

    /// Bring the population to exactly the configured target count: spawn
    /// the missing agents or remove the most recently added extras.
    pub fn adjust_number_of_boids(&mut self, p: &Parameters, weights: &Vec<i64>)
        requires
            old(self).wf(),
            p.valid(),
            old(self).boids@.len() < p.number_of_boids ==> weights@.len() >= p.number_of_boids
                - old(self).boids@.len(),
            forall|t: int| 0 <= t < weights@.len() ==> 1000 <= #[trigger] weights@[t] <= W_LIMIT,
        ensures
            final(self).wf(),
            final(self).boids@.len() == p.number_of_boids,
            forall|k: int|
                0 <= k < old(self).boids@.len() && k < p.number_of_boids
                    ==> (#[trigger] final(self).boids@[k]) == old(self).boids@[k],
            old(self).calcs_zero() ==> final(self).calcs_zero(),
    {
        let n: usize = self.boids.len();
        if n < p.number_of_boids {
            self.spawn_boids(p, p.number_of_boids - n, weights);
        } else {
            self.boids.truncate(p.number_of_boids);
            self.calcs.truncate(p.number_of_boids);
        }
    }

}

/// Bound the absolute value of a fixed-point product from component caps.
pub proof fn lemma_prod_bound(a: int, b: int, ca: int, cb: int, cc: int, cd: int)
    requires
        absi(a) <= ca,
        absi(b) <= cb,
        0 <= ca,
        0 <= cb,
        ca * cb <= cc,
        cc / 1000 <= cd,
    ensures
        absi(a) * absi(b) <= cc,
        absi(a * b) <= cc,
        absi(tdiv(a * b, 1000)) <= cd,
{
    crate::vec2::lemma_mul_le(absi(a), ca, absi(b), cb);
    lemma_abs_mul(a, b);
    lemma_tdiv_abs(a * b, 1000);
    lemma_div_mono(absi(a * b), cc, 1000);
}

/// A sum bounded by `n * t` grows by at most `t` when one more term bounded
/// by `t` is folded in.
proof fn lemma_bump_bound(acc: int, term: int, n: int, t: int)
    requires
        absi(acc) <= n * t,
        absi(term) <= t,
        0 <= n,
        0 <= t,
    ensures
        absi(acc + term) <= (n + 1) * t,
{
    assert((n + 1) * t == n * t + t) by (nonlinear_arith);
}

/// Squared distance is symmetric in the two agents.
pub proof fn lemma_dist_sym(b1: Boid, b2: Boid)
    ensures
        dist_sq_b(b1, b2) == dist_sq_b(b2, b1),
        dist_floor_b(b1, b2) == dist_floor_b(b2, b1),
{
    let ax = b1.position.x - b2.position.x;
    let ay = b1.position.y - b2.position.y;
    assert(ax * ax == (-ax) * (-ax) && ay * ay == (-ay) * (-ay)) by (nonlinear_arith);
}

/// Cosine similarity is symmetric in the two velocities.
pub proof fn lemma_sim_sym(v1: V2, v2: V2)
    ensures
        sim_s(v1, v2) == sim_s(v2, v1),
{
    let m1 = sqrt_f(v1.len_sq());
    let m2 = sqrt_f(v2.len_sq());
    assert(v1.x as int * v2.x as int == v2.x as int * v1.x as int) by (nonlinear_arith);
    assert(v1.y as int * v2.y as int == v2.y as int * v1.y as int) by (nonlinear_arith);
    assert(m1 * m2 == m2 * m1) by (nonlinear_arith);
}

} // verus!
