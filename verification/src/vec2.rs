//! Two-dimensional fixed-point vectors and magnitude clamping.
use vstd::prelude::*;

verus! {

use crate::fixed::absi;
use crate::fixed::cdiv;
use crate::fixed::cdiv_i;
use crate::fixed::isqrt;
use crate::fixed::lemma_abs_mul;
use crate::fixed::lemma_div_mono;
use crate::fixed::lemma_div_pos_le;
use crate::fixed::lemma_sqrt_f_bounds;
use crate::fixed::lemma_sqrt_f_unique;
use crate::fixed::lemma_tdiv_abs;
use crate::fixed::sqrt_f;
use crate::fixed::tdiv;
use crate::fixed::tdiv_i;

/// A two-dimensional vector of raw fixed-point coordinates.
#[derive(Clone, Copy)]
pub struct V2 {
    pub x: i64,
    pub y: i64,
}

/// Squared Euclidean length of `(vx, vy)`.
pub open spec fn len_sq_s(vx: int, vy: int) -> int {
    vx * vx + vy * vy
}

impl V2 {
    /// Both components bounded by `m` in absolute value.
    pub open spec fn ok_mag(self, m: int) -> bool {
        absi(self.x as int) <= m && absi(self.y as int) <= m
    }

    pub open spec fn len_sq(self) -> int {
        len_sq_s(self.x as int, self.y as int)
    }

    pub open spec fn is_zero(self) -> bool {
        self.x == 0 && self.y == 0
    }
}

pub proof fn lemma_sq_nonneg(a: int)
    ensures
        a * a >= 0,
        a * a == absi(a) * absi(a),
{
    assert(a * a >= 0) by (nonlinear_arith);
    if a < 0 {
        assert((-a) * (-a) == a * a) by (nonlinear_arith);
    }
}

pub proof fn lemma_mul_le(p: int, q: int, r: int, t: int)
    requires
        0 <= p <= q,
        0 <= r <= t,
    ensures
        p * r <= q * t,
{
    assert(p * r <= q * t) by (nonlinear_arith)
        requires
            0 <= p <= q,
            0 <= r <= t,
    ;
}

/// A component is never longer than the whole vector: from `vx*vx <= s` and
/// `s < m1*m1` conclude `absi(vx) < m1`.
pub proof fn lemma_comp_le_len(vx: int, s: int, m1: int)
    requires
        vx * vx <= s,
        s < m1 * m1,
        0 <= m1,
    ensures
        absi(vx) < m1,
{
    lemma_sq_nonneg(vx);
    if absi(vx) >= m1 {
        assert(absi(vx) * absi(vx) >= m1 * m1) by (nonlinear_arith)
            requires
                absi(vx) >= m1 >= 0,
        ;
    }
}

proof fn lemma_cancel_upper(a: int, b: int, s: int, m: int)
    requires
        a * m <= s * b,
        s < m,
        0 <= b,
        0 <= a,
        1 <= m,
    ensures
        a <= b,
{
    if a >= b + 1 {
        assert(false) by (nonlinear_arith)
            requires
                a * m <= s * b,
                s <= m - 1,
                0 <= b,
                1 <= m,
                a >= b + 1,
        ;
    }
}

proof fn lemma_cancel_lower(a: int, b: int, s: int, m: int)
    requires
        a * m >= s * b,
        s >= m,
        0 <= b,
        0 <= a,
        1 <= m,
    ensures
        a >= b,
{
    if a < b {
        assert(false) by (nonlinear_arith)
            requires
                a * m >= s * b,
                s >= m,
                0 <= b,
                1 <= m,
                a < b,
        ;
    }
}

/// When each scaled component obeys `m1 * |r| <= |v| * lim` and the source
/// squared length is under `m1 * m1`, the scaled squared length is under
/// `lim * lim`.
proof fn lemma_scaled_sq_upper(vx: int, vy: int, rx: int, ry: int, m1: int, lim: int)
    requires
        m1 * absi(rx) <= absi(vx) * lim,
        m1 * absi(ry) <= absi(vy) * lim,
        len_sq_s(vx, vy) < m1 * m1,
        0 <= lim,
        1 <= m1,
    ensures
        len_sq_s(rx, ry) <= lim * lim,
{
    lemma_sq_nonneg(vx);
    lemma_sq_nonneg(vy);
    lemma_sq_nonneg(rx);
    lemma_sq_nonneg(ry);
    lemma_sq_nonneg(lim);
    lemma_sq_nonneg(m1);
    assert(0 <= m1 * absi(rx) && 0 <= m1 * absi(ry)) by (nonlinear_arith)
        requires
            1 <= m1,
            0 <= absi(rx),
            0 <= absi(ry),
    ;
    lemma_mul_le(m1 * absi(rx), absi(vx) * lim, m1 * absi(rx), absi(vx) * lim);
    lemma_mul_le(m1 * absi(ry), absi(vy) * lim, m1 * absi(ry), absi(vy) * lim);
    assert((m1 * absi(rx)) * (m1 * absi(rx)) == (m1 * m1) * (absi(rx) * absi(rx)))
        by (nonlinear_arith);
    assert((absi(vx) * lim) * (absi(vx) * lim) == (absi(vx) * absi(vx)) * (lim * lim))
        by (nonlinear_arith);
    assert((m1 * absi(ry)) * (m1 * absi(ry)) == (m1 * m1) * (absi(ry) * absi(ry)))
        by (nonlinear_arith);
    assert((absi(vy) * lim) * (absi(vy) * lim) == (absi(vy) * absi(vy)) * (lim * lim))
        by (nonlinear_arith);
    assert((m1 * m1) * (rx * rx + ry * ry) <= (vx * vx + vy * vy) * (lim * lim))
        by (nonlinear_arith)
        requires
            (m1 * m1) * (rx * rx) <= (vx * vx) * (lim * lim),
            (m1 * m1) * (ry * ry) <= (vy * vy) * (lim * lim),
    ;
    assert((rx * rx + ry * ry) * (m1 * m1) == (m1 * m1) * (rx * rx + ry * ry))
        by (nonlinear_arith);
    lemma_cancel_upper(rx * rx + ry * ry, lim * lim, len_sq_s(vx, vy), m1 * m1);
}

/// Counterpart of `lemma_scaled_sq_upper` for scaling up to a lower bound.
proof fn lemma_scaled_sq_lower(vx: int, vy: int, rx: int, ry: int, m: int, minv: int)
    requires
        m * absi(rx) >= absi(vx) * minv,
        m * absi(ry) >= absi(vy) * minv,
        len_sq_s(vx, vy) >= m * m,
        0 <= minv,
        1 <= m,
    ensures
        len_sq_s(rx, ry) >= minv * minv,
{
    lemma_sq_nonneg(vx);
    lemma_sq_nonneg(vy);
    lemma_sq_nonneg(rx);
    lemma_sq_nonneg(ry);
    lemma_sq_nonneg(minv);
    lemma_sq_nonneg(m);
    assert(0 <= absi(vx) * minv && 0 <= absi(vy) * minv) by (nonlinear_arith)
        requires
            0 <= minv,
            0 <= absi(vx),
            0 <= absi(vy),
    ;
    lemma_mul_le(absi(vx) * minv, m * absi(rx), absi(vx) * minv, m * absi(rx));
    lemma_mul_le(absi(vy) * minv, m * absi(ry), absi(vy) * minv, m * absi(ry));
    assert((m * absi(rx)) * (m * absi(rx)) == (m * m) * (absi(rx) * absi(rx)))
        by (nonlinear_arith);
    assert((absi(vx) * minv) * (absi(vx) * minv) == (absi(vx) * absi(vx)) * (minv * minv))
        by (nonlinear_arith);
    assert((m * absi(ry)) * (m * absi(ry)) == (m * m) * (absi(ry) * absi(ry)))
        by (nonlinear_arith);
    assert((absi(vy) * minv) * (absi(vy) * minv) == (absi(vy) * absi(vy)) * (minv * minv))
        by (nonlinear_arith);
    assert((m * m) * (rx * rx + ry * ry) >= (vx * vx + vy * vy) * (minv * minv))
        by (nonlinear_arith)
        requires
            (m * m) * (rx * rx) >= (vx * vx) * (minv * minv),
            (m * m) * (ry * ry) >= (vy * vy) * (minv * minv),
    ;
    assert((rx * rx + ry * ry) * (m * m) == (m * m) * (rx * rx + ry * ry)) by (nonlinear_arith);
    assert(m * m >= 1) by (nonlinear_arith)
        requires
            m >= 1,
    ;
    lemma_cancel_lower(rx * rx + ry * ry, minv * minv, len_sq_s(vx, vy), m * m);
}

/// Truncating division on wide machine integers.
pub fn tdiv_i128(a: i128, b: i128) -> (r: i128)
    requires
        0 < b,
        i128::MIN < a,
    ensures
        r == tdiv(a as int, b as int),
{
    proof {
        lemma_tdiv_abs(a as int, b as int);
    }
    if a >= 0 {
        let q: u128 = (a as u128) / (b as u128);
        q as i128
    } else {
        let n: i128 = -a;
        let q: u128 = (n as u128) / (b as u128);
        -(q as i128)
    }
}

/// Floor square root of a wide machine integer.
pub fn isqrt128(n: i128) -> (r: i128)
    requires
        0 <= n <= 10_000_000_000_000_000_000_000_000_000_000_000_000,
    ensures
        0 <= r <= 4_000_000_000_000_000_000,
        r * r <= n,
        n < (r + 1) * (r + 1),
        r == sqrt_f(n as int),
{
    let mut lo: i128 = 0;
    let mut hi: i128 = 4_000_000_000_000_000_001;
    proof {
        assert((4_000_000_000_000_000_001 as int) * (4_000_000_000_000_000_001 as int)
            > 10_000_000_000_000_000_000_000_000_000_000_000_000) by (nonlinear_arith);
    }
    while lo + 1 < hi
        invariant
            0 <= lo < hi <= 4_000_000_000_000_000_001,
            lo * lo <= n,
            (n as int) < (hi as int) * (hi as int),
            n <= 10_000_000_000_000_000_000_000_000_000_000_000_000,
        decreases hi - lo,
    {
        let d: i128 = hi - lo;
        let h: u128 = (d as u128) / 2;
        proof {
            lemma_div_pos_le(d as int, 2);
            assert(d as int / 2 >= 1) by {
                lemma_div_mono(2, d as int, 2);
            }
            assert(d as int / 2 < d) by {
                assert(2 * (d as int / 2) <= d);
            }
        }
        let mid: i128 = lo + (h as i128);
        proof {
            assert((mid as int) * (mid as int) <= 4_000_000_000_000_000_001
                * 4_000_000_000_000_000_001) by (nonlinear_arith)
                requires
                    0 <= mid as int <= 4_000_000_000_000_000_001,
            ;
            assert(4_000_000_000_000_000_001 * 4_000_000_000_000_000_001
                < 0x7fff_ffff_ffff_ffff_ffff_ffff_ffff_ffff) by (nonlinear_arith);
        }
        if mid * mid <= n {
            lo = mid;
        } else {
            hi = mid;
        }
    }
    proof {
        lemma_sqrt_f_unique(n as int, lo as int);
    }
    lo
}

/// Spec mirror of `clamp_len_max`: scale the vector down onto the disc of
/// radius `limit` when it lies outside, dividing by one more than the floor
/// square root so that the result lands inside.
pub open spec fn clamp_len_max_s(vx: int, vy: int, limit: int) -> (int, int) {
    let s = len_sq_s(vx, vy);
    if s <= limit * limit {
        (vx, vy)
    } else {
        let m1 = sqrt_f(s) + 1;
        (tdiv(vx * limit, m1), tdiv(vy * limit, m1))
    }
}

/// The clamped vector lies in the disc and its components under the limit.
pub proof fn lemma_clamp_len_max_s(vx: int, vy: int, limit: int)
    requires
        0 <= limit,
    ensures
        ({
            let r = clamp_len_max_s(vx, vy, limit);
            absi(r.0) <= limit && absi(r.1) <= limit && len_sq_s(r.0, r.1) <= limit * limit
        }),
{
    let s = len_sq_s(vx, vy);
    lemma_sq_nonneg(vx);
    lemma_sq_nonneg(vy);
    assert((limit + 1) * (limit + 1) > limit * limit) by (nonlinear_arith)
        requires
            limit >= 0,
    ;
    if s <= limit * limit {
        lemma_comp_le_len(vx, s, limit + 1);
        lemma_comp_le_len(vy, s, limit + 1);
    } else {
        lemma_sqrt_f_bounds(s);
        let m1 = sqrt_f(s) + 1;
        let rx = tdiv(vx * limit, m1);
        let ry = tdiv(vy * limit, m1);
        lemma_tdiv_abs(vx * limit, m1);
        lemma_tdiv_abs(vy * limit, m1);
        lemma_abs_mul(vx, limit);
        lemma_abs_mul(vy, limit);
        lemma_scaled_sq_upper(vx, vy, rx, ry, m1, limit);
        lemma_sq_nonneg(rx);
        lemma_sq_nonneg(ry);
        lemma_comp_le_len(rx, len_sq_s(rx, ry), limit + 1);
        lemma_comp_le_len(ry, len_sq_s(rx, ry), limit + 1);
    }
}

/// Clamp the vector's length from above, preserving its direction up to
/// fixed-point truncation.
pub fn clamp_len_max(v: V2, limit: i64) -> (r: V2)
    requires
        0 <= limit <= 1_000_000_000,
        v.ok_mag(2_000_000_000_000_000_000),
    ensures
        (r.x as int, r.y as int) == clamp_len_max_s(v.x as int, v.y as int, limit as int),
        v.len_sq() <= limit * limit ==> r == v,
        r.len_sq() <= limit * limit,
        r.ok_mag(limit as int),
{
    proof {
        lemma_sq_nonneg(v.x as int);
        lemma_sq_nonneg(v.y as int);
        assert(absi(v.x as int) * absi(v.x as int) <= 4_000_000_000_000_000_000_000_000_000_000_000_000
            && absi(v.y as int) * absi(v.y as int) <= 4_000_000_000_000_000_000_000_000_000_000_000_000)
            by (nonlinear_arith)
            requires
                0 <= absi(v.x as int) <= 2_000_000_000_000_000_000,
                0 <= absi(v.y as int) <= 2_000_000_000_000_000_000,
        ;
        assert((limit as int) * (limit as int) <= 1_000_000_000_000_000_000) by (nonlinear_arith)
            requires
                0 <= limit as int <= 1_000_000_000,
        ;
        lemma_clamp_len_max_s(v.x as int, v.y as int, limit as int);
    }
    let xx: i128 = (v.x as i128) * (v.x as i128);
    let yy: i128 = (v.y as i128) * (v.y as i128);
    let s: i128 = xx + yy;
    let ll: i128 = (limit as i128) * (limit as i128);
    if s <= ll {
        v
    } else {
        let m: i128 = isqrt128(s);
        let m1: i128 = m + 1;
        proof {
            lemma_abs_mul(v.x as int, limit as int);
            lemma_abs_mul(v.y as int, limit as int);
            assert(absi(v.x as int) * absi(limit as int) <= 2_000_000_000_000_000_000_000_000_000
                && absi(v.y as int) * absi(limit as int) <= 2_000_000_000_000_000_000_000_000_000)
                by (nonlinear_arith)
                requires
                    0 <= absi(v.x as int) <= 2_000_000_000_000_000_000,
                    0 <= absi(v.y as int) <= 2_000_000_000_000_000_000,
                    0 <= absi(limit as int) <= 1_000_000_000,
            ;
        }
        let xl: i128 = (v.x as i128) * (limit as i128);
        let yl: i128 = (v.y as i128) * (limit as i128);
        let rx: i128 = tdiv_i128(xl, m1);
        let ry: i128 = tdiv_i128(yl, m1);
        proof {
            lemma_tdiv_abs(xl as int, m1 as int);
            lemma_tdiv_abs(yl as int, m1 as int);
        }
        V2 { x: rx as i64, y: ry as i64 }
    }
}

/// Spec mirror of `clamp_speed`: scale a too-slow vector up onto the band
/// and a too-fast one down into it; the zero vector has no direction and is
/// left alone.
pub open spec fn clamp_speed_s(vx: int, vy: int, minv: int, maxv: int) -> (int, int) {
    let s = len_sq_s(vx, vy);
    if s == 0 {
        (vx, vy)
    } else if s < minv * minv {
        let m = sqrt_f(s);
        (cdiv(vx * minv, m), cdiv(vy * minv, m))
    } else if s > maxv * maxv {
        let m1 = sqrt_f(s) + 1;
        (tdiv(vx * maxv, m1), tdiv(vy * maxv, m1))
    } else {
        (vx, vy)
    }
}

/// Absolute-value facts for `cdiv`.
pub proof fn lemma_cdiv_abs(a: int, b: int)
    requires
        1 <= b,
    ensures
        b * absi(cdiv(a, b)) >= absi(a),
        absi(cdiv(a, b)) <= absi(a) / b + 1,
        a >= 0 ==> cdiv(a, b) >= 0,
        a < 0 ==> cdiv(a, b) <= 0,
{
    let m = absi(a);
    lemma_div_pos_le(m + b - 1, b);
    lemma_div_pos_le(m, b);
    let q = (m + b - 1) / b;
    vstd::arithmetic::div_mod::lemma_fundamental_div_mod(m + b - 1, b);
    vstd::arithmetic::div_mod::lemma_mod_bound(m + b - 1, b);
    vstd::arithmetic::div_mod::lemma_fundamental_div_mod(m, b);
    vstd::arithmetic::div_mod::lemma_mod_bound(m, b);
    assert(q <= m / b + 1 && b * q >= m) by (nonlinear_arith)
        requires
            m + b - 1 == b * q + (m + b - 1) % b,
            0 <= (m + b - 1) % b < b,
            m == b * (m / b) + m % b,
            0 <= m % b < b,
            0 <= m,
            1 <= b,
    ;
}

/// The speed clamp reaches the band from either side, leaves in-band and
/// zero vectors alone, and keeps components within a unit of the bounds.
pub proof fn lemma_clamp_speed_s(vx: int, vy: int, minv: int, maxv: int)
    requires
        0 <= minv <= maxv,
    ensures
        ({
            let r = clamp_speed_s(vx, vy, minv, maxv);
            let s = len_sq_s(vx, vy);
            &&& (s == 0 ==> r == (vx, vy))
            &&& (0 < s < minv * minv ==> len_sq_s(r.0, r.1) >= minv * minv)
            &&& (s > maxv * maxv ==> len_sq_s(r.0, r.1) <= maxv * maxv)
            &&& (minv * minv <= s <= maxv * maxv ==> r == (vx, vy))
            &&& (s <= maxv * maxv ==> absi(r.0) <= maxv + 1 && absi(r.1) <= maxv + 1)
            &&& (s > maxv * maxv ==> absi(r.0) <= maxv && absi(r.1) <= maxv)
            &&& (0 < s < minv * minv ==> absi(r.0) <= minv + 1 && absi(r.1) <= minv + 1)
        }),
{
    let s = len_sq_s(vx, vy);
    lemma_sq_nonneg(vx);
    lemma_sq_nonneg(vy);
    assert((maxv + 1) * (maxv + 1) > maxv * maxv) by (nonlinear_arith)
        requires
            maxv >= 0,
    ;
    lemma_mul_le(minv, maxv, minv, maxv);
    if s == 0 {
        assert(vx * vx == 0 && vy * vy == 0);
        assert(absi(vx) * absi(vx) == 0 && absi(vy) * absi(vy) == 0);
        assert(absi(vx) == 0 && absi(vy) == 0) by (nonlinear_arith)
            requires
                absi(vx) * absi(vx) == 0,
                absi(vy) * absi(vy) == 0,
                absi(vx) >= 0,
                absi(vy) >= 0,
        ;
    } else if s < minv * minv {
        lemma_sqrt_f_bounds(s);
        let m = sqrt_f(s);
        assert(m >= 1) by (nonlinear_arith)
            requires
                m >= 0,
                (m + 1) * (m + 1) > s,
                s >= 1,
        ;
        let rx = cdiv(vx * minv, m);
        let ry = cdiv(vy * minv, m);
        lemma_cdiv_abs(vx * minv, m);
        lemma_cdiv_abs(vy * minv, m);
        lemma_abs_mul(vx, minv);
        lemma_abs_mul(vy, minv);
        lemma_scaled_sq_lower(vx, vy, rx, ry, m, minv);
        // component bound: |rx| <= |vx| * minv / m + 1 <= minv + 1
        lemma_comp_le_len(vx, s, m + 1);
        lemma_comp_le_len(vy, s, m + 1);
        lemma_mul_le(absi(vx), m, minv, minv);
        lemma_mul_le(absi(vy), m, minv, minv);
        assert(0 <= absi(vx) * minv && 0 <= absi(vy) * minv) by (nonlinear_arith)
            requires
                0 <= absi(vx),
                0 <= absi(vy),
                0 <= minv,
        ;
        lemma_div_mono(absi(vx) * minv, m * minv, m);
        lemma_div_mono(absi(vy) * minv, m * minv, m);
        assert((m * minv) / m == minv) by {
            vstd::arithmetic::div_mod::lemma_div_multiples_vanish(minv, m);
        }
        assert(absi(vx * minv) / m <= minv && absi(vy * minv) / m <= minv);
        // |rx| stays under minv + 1 <= maxv + 1
        assert(absi(rx) <= minv + 1 && absi(ry) <= minv + 1);
    } else if s > maxv * maxv {
        lemma_sqrt_f_bounds(s);
        let m1 = sqrt_f(s) + 1;
        let rx = tdiv(vx * maxv, m1);
        let ry = tdiv(vy * maxv, m1);
        lemma_tdiv_abs(vx * maxv, m1);
        lemma_tdiv_abs(vy * maxv, m1);
        lemma_abs_mul(vx, maxv);
        lemma_abs_mul(vy, maxv);
        lemma_scaled_sq_upper(vx, vy, rx, ry, m1, maxv);
        lemma_sq_nonneg(rx);
        lemma_sq_nonneg(ry);
        lemma_comp_le_len(rx, len_sq_s(rx, ry), maxv + 1);
        lemma_comp_le_len(ry, len_sq_s(rx, ry), maxv + 1);
    } else {
        lemma_comp_le_len(vx, s, maxv + 1);
        lemma_comp_le_len(vy, s, maxv + 1);
    }
}

/// Clamp the vector's squared length into the band, preserving direction up
/// to fixed-point truncation; the zero vector stays zero.
pub fn clamp_speed(v: V2, minv: i64, maxv: i64) -> (r: V2)
    requires
        0 <= minv <= maxv <= 1_000_000,
        v.ok_mag(100_000_000),
    ensures
        (r.x as int, r.y as int) == clamp_speed_s(v.x as int, v.y as int, minv as int, maxv as int),
        v.len_sq() == 0 ==> r == v,
        0 < v.len_sq() < minv * minv ==> r.len_sq() >= minv * minv,
        v.len_sq() > maxv * maxv ==> r.len_sq() <= maxv * maxv,
        minv * minv <= v.len_sq() <= maxv * maxv ==> r == v,
        r.ok_mag(if v.len_sq() <= maxv * maxv { maxv as int + 1 } else { maxv as int }),
{
    proof {
        lemma_sq_nonneg(v.x as int);
        lemma_sq_nonneg(v.y as int);
        assert(absi(v.x as int) * absi(v.x as int) <= 10_000_000_000_000_000
            && absi(v.y as int) * absi(v.y as int) <= 10_000_000_000_000_000) by (nonlinear_arith)
            requires
                0 <= absi(v.x as int) <= 100_000_000,
                0 <= absi(v.y as int) <= 100_000_000,
        ;
        assert((minv as int) * (minv as int) <= 1_000_000_000_000
            && (maxv as int) * (maxv as int) <= 1_000_000_000_000) by (nonlinear_arith)
            requires
                0 <= minv as int <= 1_000_000,
                0 <= maxv as int <= 1_000_000,
        ;
        lemma_clamp_speed_s(v.x as int, v.y as int, minv as int, maxv as int);
    }
    let s: i64 = v.x * v.x + v.y * v.y;
    if s == 0 {
        v
    } else if s < minv * minv {
        let m: i64 = isqrt(s);
        proof {
            assert(m >= 1) by (nonlinear_arith)
                requires
                    m >= 0,
                    (m as int + 1) * (m as int + 1) > s as int,
                    s as int >= 1,
            ;
            lemma_abs_mul(v.x as int, minv as int);
            lemma_abs_mul(v.y as int, minv as int);
            assert(absi(v.x as int) * absi(minv as int) <= 100_000_000_000_000
                && absi(v.y as int) * absi(minv as int) <= 100_000_000_000_000)
                by (nonlinear_arith)
                requires
                    0 <= absi(v.x as int) <= 100_000_000,
                    0 <= absi(v.y as int) <= 100_000_000,
                    0 <= absi(minv as int) <= 1_000_000,
            ;
        }
        let rx: i64 = cdiv_i(v.x * minv, m);
        let ry: i64 = cdiv_i(v.y * minv, m);
        V2 { x: rx, y: ry }
    } else if s > maxv * maxv {
        let m: i64 = isqrt(s);
        let m1: i64 = m + 1;
        proof {
            lemma_abs_mul(v.x as int, maxv as int);
            lemma_abs_mul(v.y as int, maxv as int);
            assert(absi(v.x as int) * absi(maxv as int) <= 100_000_000_000_000
                && absi(v.y as int) * absi(maxv as int) <= 100_000_000_000_000)
                by (nonlinear_arith)
                requires
                    0 <= absi(v.x as int) <= 100_000_000,
                    0 <= absi(v.y as int) <= 100_000_000,
                    0 <= absi(maxv as int) <= 1_000_000,
            ;
        }
        let rx: i64 = tdiv_i(v.x * maxv, m1);
        let ry: i64 = tdiv_i(v.y * maxv, m1);
        V2 { x: rx, y: ry }
    } else {
        v
    }
}

/// With the speed bounds well separated, the clamp lands every moving
/// vector inside the band: at least the minimum speed and at most the
/// maximum, whichever side it started on.
pub proof fn lemma_clamp_speed_band(vx: int, vy: int, minv: int, maxv: int)
    requires
        2 <= minv,
        2 * minv + 4 <= maxv,
    ensures
        ({
            let r = clamp_speed_s(vx, vy, minv, maxv);
            len_sq_s(vx, vy) != 0 ==> minv * minv <= len_sq_s(r.0, r.1) <= maxv * maxv
        }),
{
    lemma_clamp_speed_s(vx, vy, minv, maxv);
    let s = len_sq_s(vx, vy);
    let r = clamp_speed_s(vx, vy, minv, maxv);
    let rx = r.0;
    let ry = r.1;
    lemma_sq_nonneg(vx);
    lemma_sq_nonneg(vy);
    lemma_sq_nonneg(rx);
    lemma_sq_nonneg(ry);
    if s == 0 {
    } else if s < minv * minv {
        // scaled up: the lower bound comes from the clamp, the upper from
        // the component bound minv + 1 and the band separation
        assert(rx * rx <= (minv + 1) * (minv + 1) && ry * ry <= (minv + 1) * (minv + 1)) by {
            lemma_mul_le(absi(rx), minv + 1, absi(rx), minv + 1);
            lemma_mul_le(absi(ry), minv + 1, absi(ry), minv + 1);
        }
        assert(2 * ((minv + 1) * (minv + 1)) <= maxv * maxv) by (nonlinear_arith)
            requires
                2 <= minv,
                2 * minv + 4 <= maxv,
        ;
    } else if s > maxv * maxv {
        // scaled down: the upper bound comes from the clamp; for the lower
        // bound, walk the truncation error of the scaling
        crate::fixed::lemma_sqrt_f_bounds(s);
        let m = sqrt_f(s);
        let m1 = m + 1;
        // the length was above the band, so its root reaches maxv
        assert(m >= maxv) by {
            if m < maxv {
                lemma_mul_le(m1, maxv, m1, maxv);
                assert(s < m1 * m1);
            }
        }
        lemma_tdiv_abs(vx * maxv, m1);
        lemma_tdiv_abs(vy * maxv, m1);
        lemma_abs_mul(vx, maxv);
        lemma_abs_mul(vy, maxv);
        lemma_comp_le_len(vx, s, m1);
        lemma_comp_le_len(vy, s, m1);
        lemma_div_pos_le(absi(vx) * maxv, m1);
        lemma_div_pos_le(absi(vy) * maxv, m1);
        // m1 * (|r| + 1) exceeds |v| * maxv on each axis
        assert(m1 * (absi(rx) + 1) >= absi(vx) * maxv && m1 * (absi(ry) + 1) >= absi(vy) * maxv)
            by (nonlinear_arith)
            requires
                m1 * ((absi(vx) * maxv) / m1) <= absi(vx) * maxv,
                absi(vx) * maxv < m1 * ((absi(vx) * maxv) / m1) + m1,
                m1 * ((absi(vy) * maxv) / m1) <= absi(vy) * maxv,
                absi(vy) * maxv < m1 * ((absi(vy) * maxv) / m1) + m1,
                absi(rx) == (absi(vx) * maxv) / m1,
                absi(ry) == (absi(vy) * maxv) / m1,
                0 < m1,
        ;
        // square and sum the axis inequalities
        assert(0 <= absi(vx) * maxv && 0 <= absi(vy) * maxv) by (nonlinear_arith)
            requires
                0 <= absi(vx),
                0 <= absi(vy),
                0 <= maxv,
        ;
        lemma_mul_le(absi(vx) * maxv, m1 * (absi(rx) + 1), absi(vx) * maxv, m1 * (absi(rx) + 1));
        lemma_mul_le(absi(vy) * maxv, m1 * (absi(ry) + 1), absi(vy) * maxv, m1 * (absi(ry) + 1));
        assert((m1 * (absi(rx) + 1)) * (m1 * (absi(rx) + 1)) == (m1 * m1) * ((absi(rx) + 1) * (
        absi(rx) + 1))) by (nonlinear_arith);
        assert((m1 * (absi(ry) + 1)) * (m1 * (absi(ry) + 1)) == (m1 * m1) * ((absi(ry) + 1) * (
        absi(ry) + 1))) by (nonlinear_arith);
        assert((absi(vx) * maxv) * (absi(vx) * maxv) == (vx * vx) * (maxv * maxv))
            by (nonlinear_arith)
            requires
                vx * vx == absi(vx) * absi(vx),
        ;
        assert((absi(vy) * maxv) * (absi(vy) * maxv) == (vy * vy) * (maxv * maxv))
            by (nonlinear_arith)
            requires
                vy * vy == absi(vy) * absi(vy),
        ;
        assert((m1 * m1) * ((absi(rx) + 1) * (absi(rx) + 1) + (absi(ry) + 1) * (absi(ry) + 1))
            >= s * (maxv * maxv)) by (nonlinear_arith)
            requires
                (m1 * m1) * ((absi(rx) + 1) * (absi(rx) + 1)) >= (vx * vx) * (maxv * maxv),
                (m1 * m1) * ((absi(ry) + 1) * (absi(ry) + 1)) >= (vy * vy) * (maxv * maxv),
                s == vx * vx + vy * vy,
        ;
        // expand the squares: each is r*r + 2|r| + 1 with |r| <= maxv
        assert((absi(rx) + 1) * (absi(rx) + 1) == rx * rx + 2 * absi(rx) + 1) by (nonlinear_arith)
            requires
                rx * rx == absi(rx) * absi(rx),
        ;
        assert((absi(ry) + 1) * (absi(ry) + 1) == ry * ry + 2 * absi(ry) + 1) by (nonlinear_arith)
            requires
                ry * ry == absi(ry) * absi(ry),
        ;
        let a = rx * rx + ry * ry;
        assert((m1 * m1) * (a + 4 * maxv + 2) >= s * (maxv * maxv)) by (nonlinear_arith)
            requires
                (m1 * m1) * (a + 2 * absi(rx) + 2 * absi(ry) + 2) >= s * (maxv * maxv),
                absi(rx) <= maxv,
                absi(ry) <= maxv,
                0 <= m1 * m1,
        ;
        assert(s * (maxv * maxv) >= (m1 - 1) * (m1 - 1) * (maxv * maxv)) by (nonlinear_arith)
            requires
                s >= m * m,
                m == m1 - 1,
                0 <= maxv * maxv,
        ;
        // the accumulated truncation error cannot push below the minimum
        assert(a >= minv * minv) by (nonlinear_arith)
            requires
                (m1 * m1) * (a + 4 * maxv + 2) >= (m1 - 1) * (m1 - 1) * (maxv * maxv),
                m1 >= maxv + 1,
                2 <= minv,
                2 * minv + 4 <= maxv,
                0 <= a,
        ;
    } else {
    }
}

} // verus!
