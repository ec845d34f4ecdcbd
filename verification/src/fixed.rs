//! Fixed-point scalar arithmetic.
//!
//! A raw value `v: i64` stands for the real number `v / SCALE`.  Exec
//! operations truncate toward zero, as Rust's integer division does; the spec
//! mirror of every operation is stated over `int` with `tdiv`.
use vstd::prelude::*;

verus! {

/// One simulation unit in raw fixed-point ticks.
pub const SCALE: i64 = 1000;

/// Saturation ceiling for fixed-point powers (ten billion units).
pub const POW_CAP: i64 = 10_000_000_000_000;

/// Absolute value.
pub open spec fn absi(a: int) -> int {
    if a < 0 { -a } else { a }
}

/// Division truncated toward zero, as Rust's `/` computes it (divisor > 0).
pub open spec fn tdiv(a: int, b: int) -> int
    recommends
        b > 0,
{
    if a >= 0 { a / b } else { -((-a) / b) }
}

/// Division rounded away from zero (divisor > 0).
pub open spec fn cdiv(a: int, b: int) -> int
    recommends
        b > 0,
{
    if a >= 0 { (a + b - 1) / b } else { -((-a + b - 1) / b) }
}

/// Saturate a power at `POW_CAP`.
pub open spec fn pcap(v: int) -> int {
    if v > POW_CAP { POW_CAP as int } else { v }
}

pub proof fn lemma_div_pos_le(a: int, b: int)
    requires
        0 <= a,
        1 <= b,
    ensures
        0 <= a / b <= a,
        b * (a / b) <= a < b * (a / b) + b,
{
    vstd::arithmetic::div_mod::lemma_fundamental_div_mod(a, b);
    assert(0 <= a % b < b) by {
        vstd::arithmetic::div_mod::lemma_mod_bound(a, b);
    }
    assert(a == b * (a / b) + a % b);
    assert(a / b >= 0) by (nonlinear_arith)
        requires
            a == b * (a / b) + a % b,
            0 <= a,
            0 <= a % b < b,
            1 <= b,
    ;
    assert(a / b <= b * (a / b)) by (nonlinear_arith)
        requires
            1 <= b,
            0 <= a / b,
    ;
}

pub proof fn lemma_div_mono(a1: int, a2: int, b: int)
    requires
        0 <= a1 <= a2,
        1 <= b,
    ensures
        a1 / b <= a2 / b,
{
    vstd::arithmetic::div_mod::lemma_div_is_ordered(a1, a2, b);
}

pub proof fn lemma_tdiv_abs(a: int, b: int)
    requires
        1 <= b,
    ensures
        absi(tdiv(a, b)) == absi(a) / b,
        absi(tdiv(a, b)) <= absi(a),
        b * absi(tdiv(a, b)) <= absi(a),
        a >= 0 ==> tdiv(a, b) == a / b,
        a >= 0 ==> tdiv(a, b) >= 0,
        a < 0 ==> tdiv(a, b) <= 0,
{
    if a >= 0 {
        lemma_div_pos_le(a, b);
    } else {
        lemma_div_pos_le(-a, b);
    }
}

pub proof fn lemma_tdiv_neg(a: int, b: int)
    requires
        1 <= b,
    ensures
        tdiv(-a, b) == -tdiv(a, b),
{
}

pub proof fn lemma_abs_mul(a: int, b: int)
    ensures
        absi(a * b) == absi(a) * absi(b),
{
    if a >= 0 && b >= 0 {
        assert(a * b >= 0) by (nonlinear_arith)
            requires
                a >= 0,
                b >= 0,
        ;
    } else if a < 0 && b >= 0 {
        assert(a * b <= 0 && (-a) * b == -(a * b)) by (nonlinear_arith)
            requires
                a < 0,
                b >= 0,
        ;
    } else if a >= 0 && b < 0 {
        assert(a * b <= 0 && a * (-b) == -(a * b)) by (nonlinear_arith)
            requires
                a >= 0,
                b < 0,
        ;
    } else {
        assert(a * b >= 0 && (-a) * (-b) == a * b) by (nonlinear_arith)
            requires
                a < 0,
                b < 0,
        ;
    }
}

/// Truncating division on machine integers.
pub fn tdiv_i(a: i64, b: i64) -> (r: i64)
    requires
        0 < b,
        i64::MIN < a,
    ensures
        r == tdiv(a as int, b as int),
{
    proof {
        lemma_tdiv_abs(a as int, b as int);
    }
    if a >= 0 {
        let q: u64 = (a as u64) / (b as u64);
        q as i64
    } else {
        let n: i64 = -a;
        let q: u64 = (n as u64) / (b as u64);
        -(q as i64)
    }
}

/// Division rounded away from zero on machine integers.
pub fn cdiv_i(a: i64, b: i64) -> (r: i64)
    requires
        0 < b <= 1_000_000_000,
        -1_000_000_000_000_000_000 < a < 1_000_000_000_000_000_000,
    ensures
        r == cdiv(a as int, b as int),
        absi(r as int) <= absi(a as int) / (b as int) + 1,
        (b as int) * absi(r as int) >= absi(a as int),
        a >= 0 ==> r >= 0,
        a <= 0 ==> r <= 0,
{
    proof {
        lemma_div_pos_le(absi(a as int) + b - 1, b as int);
        lemma_div_pos_le(absi(a as int), b as int);
        // ceiling bounds: b * ((|a| + b - 1) / b) >= |a|
        assert((absi(a as int) + b - 1) / (b as int) <= absi(a as int) / (b as int) + 1
            && (b as int) * ((absi(a as int) + b - 1) / (b as int)) >= absi(a as int)) by {
            let m: int = absi(a as int);
            let q: int = (m + b - 1) / (b as int);
            vstd::arithmetic::div_mod::lemma_fundamental_div_mod(m + b - 1, b as int);
            vstd::arithmetic::div_mod::lemma_mod_bound(m + b - 1, b as int);
            vstd::arithmetic::div_mod::lemma_fundamental_div_mod(m, b as int);
            vstd::arithmetic::div_mod::lemma_mod_bound(m, b as int);
            assert(q <= m / (b as int) + 1 && (b as int) * q >= m) by (nonlinear_arith)
                requires
                    m + b - 1 == (b as int) * q + (m + b - 1) % (b as int),
                    0 <= (m + b - 1) % (b as int) < b,
                    m == (b as int) * (m / (b as int)) + m % (b as int),
                    0 <= m % (b as int) < b,
                    0 <= m,
                    1 <= b,
            ;
        }
    }
    if a >= 0 {
        let q: u64 = ((a as u64) + (b as u64) - 1) / (b as u64);
        q as i64
    } else {
        let n: i64 = -a;
        let q: u64 = ((n as u64) + (b as u64) - 1) / (b as u64);
        -(q as i64)
    }
}

/// Fixed-point multiplication: `a * b / SCALE`, truncated toward zero.
pub fn fp_mul(a: i64, b: i64) -> (r: i64)
    requires
        absi(a as int) * absi(b as int) <= 9_000_000_000_000_000_000,
    ensures
        r == tdiv(a as int * b as int, SCALE as int),
        absi(r as int) <= absi(a as int) * absi(b as int) / (SCALE as int),
        absi(r as int) * (SCALE as int) <= absi(a as int) * absi(b as int),
{
    proof {
        lemma_abs_mul(a as int, b as int);
        lemma_tdiv_abs(a as int * b as int, SCALE as int);
    }
    let p: i64 = a * b;
    tdiv_i(p, SCALE)
}

/// Nonnegative wide fixed-point multiplication, saturated at `POW_CAP`.
pub fn wmul(a: i64, b: i64) -> (r: i64)
    requires
        0 <= a <= POW_CAP,
        0 <= b <= 100_000_000_000_000_000,
    ensures
        r == pcap(tdiv(a as int * b as int, SCALE as int)),
        0 <= r <= POW_CAP,
{
    proof {
        assert(0 <= a as int * b as int <= 1_000_000_000_000_000_000_000_000_000_000) by (nonlinear_arith)
            requires
                0 <= a as int <= 10_000_000_000_000,
                0 <= b as int <= 100_000_000_000_000_000,
        ;
    }
    let p: u128 = (a as u128) * (b as u128);
    let q: u128 = p / (SCALE as u128);
    proof {
        lemma_tdiv_abs(a as int * b as int, SCALE as int);
        lemma_div_pos_le(a as int * b as int, SCALE as int);
    }
    if q > POW_CAP as u128 {
        POW_CAP
    } else {
        q as i64
    }
}

/// Mathematical floor square root, defined by recursion.
pub open spec fn sqrt_f(n: int) -> int
    decreases n,
{
    if n < 1 {
        0
    } else {
        let r = sqrt_f(n - 1);
        if (r + 1) * (r + 1) <= n { r + 1 } else { r }
    }
}

pub proof fn lemma_sqrt_f_bounds(n: int)
    requires
        0 <= n,
    ensures
        0 <= sqrt_f(n),
        sqrt_f(n) * sqrt_f(n) <= n,
        n < (sqrt_f(n) + 1) * (sqrt_f(n) + 1),
    decreases n,
{
    if n == 0 {
    } else {
        lemma_sqrt_f_bounds(n - 1);
        let r = sqrt_f(n - 1);
        if (r + 1) * (r + 1) <= n {
            assert(n < (r + 2) * (r + 2)) by (nonlinear_arith)
                requires
                    n - 1 < (r + 1) * (r + 1),
                    0 <= r,
            ;
        }
    }
}

pub proof fn lemma_sqrt_f_unique(n: int, r: int)
    requires
        0 <= n,
        0 <= r,
        r * r <= n,
        n < (r + 1) * (r + 1),
    ensures
        sqrt_f(n) == r,
{
    lemma_sqrt_f_bounds(n);
    let s = sqrt_f(n);
    if s < r {
        assert((s + 1) * (s + 1) <= r * r) by (nonlinear_arith)
            requires
                0 <= s,
                s + 1 <= r,
        ;
    }
    if s > r {
        assert((r + 1) * (r + 1) <= s * s) by (nonlinear_arith)
            requires
                0 <= r,
                r + 1 <= s,
        ;
    }
}

pub proof fn lemma_sqrt_f_mono(n1: int, n2: int)
    requires
        0 <= n1 <= n2,
    ensures
        sqrt_f(n1) <= sqrt_f(n2),
{
    lemma_sqrt_f_bounds(n1);
    lemma_sqrt_f_bounds(n2);
    let s1 = sqrt_f(n1);
    let s2 = sqrt_f(n2);
    if s1 > s2 {
        assert((s2 + 1) * (s2 + 1) <= s1 * s1) by (nonlinear_arith)
            requires
                0 <= s2,
                s2 + 1 <= s1,
        ;
    }
}

/// Floor square root of a machine integer.
pub fn isqrt(n: i64) -> (r: i64)
    requires
        0 <= n <= 0x100_0000_0000_0000,
    ensures
        0 <= r <= 0x1000_0000,
        r * r <= n,
        n < (r + 1) * (r + 1),
        r == sqrt_f(n as int),
{
    let mut lo: i64 = 0;
    let mut hi: i64 = 0x1000_0001;
    proof {
        assert((0x1000_0001 as int) * (0x1000_0001 as int) > 0x100_0000_0000_0000) by (nonlinear_arith);
    }
    while lo + 1 < hi
        invariant
            0 <= lo < hi <= 0x1000_0001,
            lo * lo <= n,
            (n as int) < (hi as int) * (hi as int),
            n <= 0x100_0000_0000_0000,
        decreases hi - lo,
    {
        let d: i64 = hi - lo;
        let h: u64 = (d as u64) / 2;
        proof {
            lemma_div_pos_le(d as int, 2);
            assert(d as int / 2 >= 1) by {
                lemma_div_mono(2, d as int, 2);
            }
            assert(d as int / 2 < d) by {
                assert(2 * (d as int / 2) <= d);
            }
        }
        let mid: i64 = lo + (h as i64);
        proof {
            assert((mid as int) * (mid as int) <= 0x1000_0001 * 0x1000_0001) by (nonlinear_arith)
                requires
                    0 <= mid as int <= 0x1000_0001,
            ;
            assert(0x1000_0001 * 0x1000_0001 < 0x7fff_ffff_ffff_ffff) by (nonlinear_arith);
        }
        if mid * mid <= n {
            lo = mid;
        } else {
            hi = mid;
        }
    }
    proof {
        lemma_sqrt_f_unique(n as int, lo as int);
    }
    lo
}

/// Spec mirror of `fp_sqrt`.
pub open spec fn fp_sqrt_s(x: int) -> int {
    sqrt_f(x * (SCALE as int))
}

/// Fixed-point square root: the raw result again stands for a value / SCALE.
pub fn fp_sqrt(x: i64) -> (r: i64)
    requires
        0 <= x <= 10_000_000_000,
    ensures
        r == fp_sqrt_s(x as int),
        0 <= r <= 4_000_000,
{
    let y: i64 = x * SCALE;
    let r: i64 = isqrt(y);
    proof {
        assert(r as int <= 4_000_000) by {
            if r as int > 4_000_000 {
                assert((r as int) * (r as int) > 4_000_000 * 4_000_000) by (nonlinear_arith)
                    requires
                        r as int > 4_000_000,
                ;
            }
        }
    }
    r
}

/// Spec mirror of `fp_powi`: fixed-point integer power, saturated at `POW_CAP`.
pub open spec fn powi_s(b: int, k: nat) -> int
    decreases k,
{
    if k == 0 {
        SCALE as int
    } else {
        pcap(tdiv(powi_s(b, (k - 1) as nat) * b, SCALE as int))
    }
}

pub proof fn lemma_powi_bounds(b: int, k: nat)
    requires
        0 <= b,
    ensures
        0 <= powi_s(b, k) <= POW_CAP,
    decreases k,
{
    if k == 0 {
    } else {
        lemma_powi_bounds(b, (k - 1) as nat);
        let p = powi_s(b, (k - 1) as nat);
        assert(p * b >= 0) by (nonlinear_arith)
            requires
                p >= 0,
                b >= 0,
        ;
        lemma_tdiv_abs(p * b, SCALE as int);
    }
}

pub proof fn lemma_powi_mono(b1: int, b2: int, k: nat)
    requires
        0 <= b1 <= b2,
    ensures
        powi_s(b1, k) <= powi_s(b2, k),
    decreases k,
{
    if k > 0 {
        lemma_powi_mono(b1, b2, (k - 1) as nat);
        lemma_powi_bounds(b1, (k - 1) as nat);
        lemma_powi_bounds(b2, (k - 1) as nat);
        let p1 = powi_s(b1, (k - 1) as nat);
        let p2 = powi_s(b2, (k - 1) as nat);
        assert(0 <= p1 * b1 <= p2 * b2) by (nonlinear_arith)
            requires
                0 <= p1 <= p2,
                0 <= b1 <= b2,
        ;
        lemma_tdiv_abs(p1 * b1, SCALE as int);
        lemma_tdiv_abs(p2 * b2, SCALE as int);
        lemma_div_mono(p1 * b1, p2 * b2, SCALE as int);
    }
}

/// Fixed-point integer power.
pub fn fp_powi(b: i64, k: u64) -> (r: i64)
    requires
        0 <= b <= 1_000_000,
        k <= 1000,
    ensures
        r == powi_s(b as int, k as nat),
        0 <= r <= POW_CAP,
{
    let mut acc: i64 = SCALE;
    let mut i: u64 = 0;
    while i < k
        invariant
            0 <= b <= 1_000_000,
            i <= k,
            acc == powi_s(b as int, i as nat),
            0 <= acc <= POW_CAP,
        decreases k - i,
    {
        acc = wmul(acc, b);
        i = i + 1;
        proof {
            assert(powi_s(b as int, i as nat) == pcap(
                tdiv(powi_s(b as int, (i - 1) as nat) * b, SCALE as int),
            ));
        }
    }
    acc
}

/// One step of the binary-fraction exponent walk: `t` is replaced by its
/// square root and the accumulator picks it up when the next fraction bit
/// of the exponent is set.
pub open spec fn frac_step_s(acc: int, t: int, fr: int) -> (int, int, int) {
    let t2 = fp_sqrt_s(t);
    let fr2 = fr * 2;
    if fr2 >= SCALE as int {
        (pcap(tdiv(acc * t2, SCALE as int)), t2, fr2 - SCALE as int)
    } else {
        (acc, t2, fr2)
    }
}

pub proof fn lemma_frac_step_mono(a1: int, a2: int, t1: int, t2: int, fr: int)
    requires
        0 <= a1 <= a2,
        0 <= t1 <= t2,
        0 <= fr,
    ensures
        0 <= frac_step_s(a1, t1, fr).0 <= frac_step_s(a2, t2, fr).0,
        0 <= frac_step_s(a1, t1, fr).1 <= frac_step_s(a2, t2, fr).1,
        frac_step_s(a1, t1, fr).2 == frac_step_s(a2, t2, fr).2,
        frac_step_s(a1, t1, fr).2 >= 0,
{
    lemma_sqrt_f_mono(t1 * (SCALE as int), t2 * (SCALE as int));
    lemma_sqrt_f_bounds(t1 * (SCALE as int));
    lemma_sqrt_f_bounds(t2 * (SCALE as int));
    let s1 = fp_sqrt_s(t1);
    let s2 = fp_sqrt_s(t2);
    if fr * 2 >= SCALE as int {
        assert(0 <= a1 * s1 <= a2 * s2) by (nonlinear_arith)
            requires
                0 <= a1 <= a2,
                0 <= s1 <= s2,
        ;
        lemma_tdiv_abs(a1 * s1, SCALE as int);
        lemma_tdiv_abs(a2 * s2, SCALE as int);
        lemma_div_mono(a1 * s1, a2 * s2, SCALE as int);
    }
}

/// One executable step of the fraction walk.
pub fn fp_frac_step(acc: i64, t: i64, fr: i64) -> (res: (i64, i64, i64))
    requires
        0 <= acc <= POW_CAP,
        0 <= t <= 1_000_000,
        0 <= fr < SCALE,
    ensures
        res.0 == frac_step_s(acc as int, t as int, fr as int).0,
        res.1 == frac_step_s(acc as int, t as int, fr as int).1,
        res.2 == frac_step_s(acc as int, t as int, fr as int).2,
        0 <= res.0 <= POW_CAP,
        0 <= res.1 <= 1_000_000,
        0 <= res.2 < SCALE,
{
    let t2: i64 = fp_sqrt(t);
    proof {
        lemma_sqrt_f_bounds(t as int * (SCALE as int));
        assert(t2 as int <= 1_000_000) by {
            assert((t2 as int) * (t2 as int) <= 1_000_000_000);
            if t2 as int > 1_000_000 {
                assert((t2 as int) * (t2 as int) > 1_000_000_000) by (nonlinear_arith)
                    requires
                        t2 as int > 1_000_000,
                ;
            }
        }
    }
    let fr2: i64 = fr * 2;
    if fr2 >= SCALE {
        let a2: i64 = wmul(acc, t2);
        (a2, t2, fr2 - SCALE)
    } else {
        (acc, t2, fr2)
    }
}

/// Spec mirror of `fp_pow`: integer part by repeated multiplication, then
/// ten binary-fraction steps by repeated square roots.
pub open spec fn pow_s(b: int, e: int) -> int
    recommends
        0 <= b,
        0 <= e,
{
    let a0 = powi_s(b, (e / (SCALE as int)) as nat);
    let f0 = e % (SCALE as int);
    let s1 = frac_step_s(a0, b, f0);
    let s2 = frac_step_s(s1.0, s1.1, s1.2);
    let s3 = frac_step_s(s2.0, s2.1, s2.2);
    let s4 = frac_step_s(s3.0, s3.1, s3.2);
    let s5 = frac_step_s(s4.0, s4.1, s4.2);
    let s6 = frac_step_s(s5.0, s5.1, s5.2);
    let s7 = frac_step_s(s6.0, s6.1, s6.2);
    let s8 = frac_step_s(s7.0, s7.1, s7.2);
    let s9 = frac_step_s(s8.0, s8.1, s8.2);
    let s10 = frac_step_s(s9.0, s9.1, s9.2);
    s10.0
}

/// Fixed-point power with a fixed-point exponent.
pub fn fp_pow(b: i64, e: i64) -> (r: i64)
    requires
        0 <= b <= 1_000_000,
        0 <= e <= 100_000,
    ensures
        r == pow_s(b as int, e as int),
        0 <= r <= POW_CAP,
{
    let k: u64 = (e as u64) / (SCALE as u64);
    let frm: u64 = (e as u64) % (SCALE as u64);
    proof {
        lemma_div_pos_le(e as int, SCALE as int);
        vstd::arithmetic::div_mod::lemma_mod_bound(e as int, SCALE as int);
    }
    let a0: i64 = fp_powi(b, k);
    let s1: (i64, i64, i64) = fp_frac_step(a0, b, frm as i64);
    let s2: (i64, i64, i64) = fp_frac_step(s1.0, s1.1, s1.2);
    let s3: (i64, i64, i64) = fp_frac_step(s2.0, s2.1, s2.2);
    let s4: (i64, i64, i64) = fp_frac_step(s3.0, s3.1, s3.2);
    let s5: (i64, i64, i64) = fp_frac_step(s4.0, s4.1, s4.2);
    let s6: (i64, i64, i64) = fp_frac_step(s5.0, s5.1, s5.2);
    let s7: (i64, i64, i64) = fp_frac_step(s6.0, s6.1, s6.2);
    let s8: (i64, i64, i64) = fp_frac_step(s7.0, s7.1, s7.2);
    let s9: (i64, i64, i64) = fp_frac_step(s8.0, s8.1, s8.2);
    let s10: (i64, i64, i64) = fp_frac_step(s9.0, s9.1, s9.2);
    s10.0
}

pub proof fn lemma_pow_mono(b1: int, b2: int, e: int)
    requires
        0 <= b1 <= b2,
        0 <= e,
    ensures
        0 <= pow_s(b1, e) <= pow_s(b2, e),
{
    let k = (e / (SCALE as int)) as nat;
    let f0 = e % (SCALE as int);
    vstd::arithmetic::div_mod::lemma_mod_bound(e, SCALE as int);
    lemma_powi_mono(b1, b2, k);
    lemma_powi_bounds(b1, k);
    let x1 = frac_step_s(powi_s(b1, k), b1, f0);
    let y1 = frac_step_s(powi_s(b2, k), b2, f0);
    lemma_frac_step_mono(powi_s(b1, k), powi_s(b2, k), b1, b2, f0);
    let x2 = frac_step_s(x1.0, x1.1, x1.2);
    let y2 = frac_step_s(y1.0, y1.1, y1.2);
    lemma_frac_step_mono(x1.0, y1.0, x1.1, y1.1, x1.2);
    let x3 = frac_step_s(x2.0, x2.1, x2.2);
    let y3 = frac_step_s(y2.0, y2.1, y2.2);
    lemma_frac_step_mono(x2.0, y2.0, x2.1, y2.1, x2.2);
    let x4 = frac_step_s(x3.0, x3.1, x3.2);
    let y4 = frac_step_s(y3.0, y3.1, y3.2);
    lemma_frac_step_mono(x3.0, y3.0, x3.1, y3.1, x3.2);
    let x5 = frac_step_s(x4.0, x4.1, x4.2);
    let y5 = frac_step_s(y4.0, y4.1, y4.2);
    lemma_frac_step_mono(x4.0, y4.0, x4.1, y4.1, x4.2);
    let x6 = frac_step_s(x5.0, x5.1, x5.2);
    let y6 = frac_step_s(y5.0, y5.1, y5.2);
    lemma_frac_step_mono(x5.0, y5.0, x5.1, y5.1, x5.2);
    let x7 = frac_step_s(x6.0, x6.1, x6.2);
    let y7 = frac_step_s(y6.0, y6.1, y6.2);
    lemma_frac_step_mono(x6.0, y6.0, x6.1, y6.1, x6.2);
    let x8 = frac_step_s(x7.0, x7.1, x7.2);
    let y8 = frac_step_s(y7.0, y7.1, y7.2);
    lemma_frac_step_mono(x7.0, y7.0, x7.1, y7.1, x7.2);
    let x9 = frac_step_s(x8.0, x8.1, x8.2);
    let y9 = frac_step_s(y8.0, y8.1, y8.2);
    lemma_frac_step_mono(x8.0, y8.0, x8.1, y8.1, x8.2);
    lemma_frac_step_mono(x9.0, y9.0, x9.1, y9.1, x9.2);
}

/// Raising to the fixed-point exponent one is exact.
pub proof fn lemma_pow_one(b: int)
    requires
        0 <= b <= POW_CAP,
    ensures
        pow_s(b, SCALE as int) == b,
{
    assert((SCALE as int) / (SCALE as int) == 1 && (SCALE as int) % (SCALE as int) == 0) by {
        vstd::arithmetic::div_mod::lemma_div_multiples_vanish(1, SCALE as int);
        vstd::arithmetic::div_mod::lemma_fundamental_div_mod(SCALE as int, SCALE as int);
    }
    assert(powi_s(b, 0) == SCALE as int);
    assert(powi_s(b, 1) == pcap(tdiv(powi_s(b, 0) * b, SCALE as int)));
    assert(powi_s(b, 1) == pcap(tdiv((SCALE as int) * b, SCALE as int)));
    assert(tdiv((SCALE as int) * b, SCALE as int) == b) by {
        assert((SCALE as int) * b >= 0) by (nonlinear_arith)
            requires
                b >= 0,
        ;
        vstd::arithmetic::div_mod::lemma_div_multiples_vanish(b, SCALE as int);
    }
}

/// Clamp below at one, keeping a divisor positive.
pub open spec fn pmax1(v: int) -> int {
    if v < 1 { 1 } else { v }
}

/// Spec mirror of `sep_factor`: the reciprocal of distance to the
/// separation-bias power, in fixed point.
pub open spec fn sep_factor_s(d: int, bias: int) -> int {
    tdiv(1_000_000, pmax1(pow_s(d, bias)))
}

/// Separation factor: larger for closer agents; `bias` sharpens the falloff.
pub fn sep_factor(d: i64, bias: i64) -> (r: i64)
    requires
        1 <= d <= 1_000_000,
        0 <= bias <= 100_000,
    ensures
        r == sep_factor_s(d as int, bias as int),
        0 <= r <= 1_000_000,
{
    let p: i64 = fp_pow(d, bias);
    let p1: i64 = if p < 1 { 1 } else { p };
    proof {
        lemma_tdiv_abs(1_000_000, p1 as int);
        lemma_div_pos_le(1_000_000, p1 as int);
    }
    tdiv_i(1_000_000, p1)
}

/// Spec mirror of `align_factor`.
pub open spec fn align_factor_s(bias: int, sim: int) -> int {
    let num = if sim >= 0 {
        pow_s(bias, sim)
    } else {
        tdiv(1_000_000, pmax1(pow_s(bias, -sim)))
    };
    let inv = tdiv(1_000_000, bias);
    let den = if inv > bias { inv } else { bias };
    let f = tdiv(num * (SCALE as int), pmax1(den));
    if f > SCALE as int { SCALE as int } else { f }
}

/// Alignment factor: `bias` to the cosine-similarity power, normalised by
/// the larger of `bias` and its reciprocal, never above one.
pub fn align_factor(bias: i64, sim: i64) -> (r: i64)
    requires
        1 <= bias <= 100_000,
        -SCALE <= sim <= SCALE,
    ensures
        r == align_factor_s(bias as int, sim as int),
        0 <= r <= SCALE,
{
    let num: i64 = if sim >= 0 {
        fp_pow(bias, sim)
    } else {
        let p: i64 = fp_pow(bias, -sim);
        let p1: i64 = if p < 1 { 1 } else { p };
        proof {
            lemma_tdiv_abs(1_000_000, p1 as int);
            lemma_div_pos_le(1_000_000, p1 as int);
        }
        tdiv_i(1_000_000, p1)
    };
    let inv: i64 = tdiv_i(1_000_000, bias);
    proof {
        lemma_tdiv_abs(1_000_000, bias as int);
        lemma_div_pos_le(1_000_000, bias as int);
    }
    let den: i64 = if inv > bias { inv } else { bias };
    let den1: i64 = if den < 1 { 1 } else { den };
    let n1000: i64 = num * SCALE;
    proof {
        lemma_tdiv_abs(n1000 as int, den1 as int);
        lemma_div_pos_le(n1000 as int, den1 as int);
    }
    let f: i64 = tdiv_i(n1000, den1);
    if f > SCALE { SCALE } else { f }
}

/// For any separation bias, the separation factor never grows with distance.
pub proof fn lemma_sep_factor_antitone(d1: int, d2: int, bias: int)
    requires
        1 <= d1 <= d2,
        0 <= bias,
    ensures
        sep_factor_s(d2, bias) <= sep_factor_s(d1, bias),
{
    lemma_pow_mono(d1, d2, bias);
    let p1 = pmax1(pow_s(d1, bias));
    let p2 = pmax1(pow_s(d2, bias));
    vstd::arithmetic::div_mod::lemma_div_is_ordered_by_denominator(1_000_000, p1, p2);
    lemma_tdiv_abs(1_000_000, p1);
    lemma_tdiv_abs(1_000_000, p2);
}

/// With bias one, doubling the distance exactly halves the separation factor.
pub proof fn lemma_sep_factor_halving(d: int)
    requires
        1 <= d,
        2 * d <= POW_CAP,
    ensures
        sep_factor_s(2 * d, SCALE as int) == tdiv(sep_factor_s(d, SCALE as int), 2),
{
    lemma_pow_one(d);
    lemma_pow_one(2 * d);
    vstd::arithmetic::div_mod::lemma_div_denominator(1_000_000, d, 2);
    lemma_tdiv_abs(1_000_000, d);
    lemma_tdiv_abs(1_000_000, 2 * d);
    lemma_div_pos_le(1_000_000, d);
    lemma_tdiv_abs(1_000_000int / d, 2);
    assert(d * 2 == 2 * d);
}

/// The alignment factor reaches exactly one for equal headings when the
/// bias rewards similar directions.
pub proof fn lemma_align_peak_similar(bias: int)
    requires
        (SCALE as int) < bias <= POW_CAP,
    ensures
        align_factor_s(bias, SCALE as int) == SCALE as int,
{
    lemma_pow_one(bias);
    let inv = tdiv(1_000_000, bias);
    lemma_tdiv_abs(1_000_000, bias);
    assert(inv < bias) by {
        if bias <= 1_000_000 {
            vstd::arithmetic::div_mod::lemma_div_is_ordered_by_denominator(1_000_000, 1001, bias);
            lemma_div_pos_le(1_000_000, 1001);
            assert(1_000_000int / 1001int == 999int) by (nonlinear_arith);
        } else {
            vstd::arithmetic::div_mod::lemma_div_is_ordered_by_denominator(1_000_000, 1_000_001, bias);
            lemma_div_pos_le(1_000_000, 1_000_001);
            assert(1_000_000int / 1_000_001int == 0int) by (nonlinear_arith);
        }
    }
    assert(tdiv(bias * (SCALE as int), pmax1(bias)) == SCALE as int) by {
        assert(bias * (SCALE as int) == (SCALE as int) * bias);
        vstd::arithmetic::div_mod::lemma_div_multiples_vanish(SCALE as int, bias);
        assert(bias * (SCALE as int) >= 0) by (nonlinear_arith)
            requires
                bias >= 0,
        ;
        assert(bias * (SCALE as int) == (bias as int) * (SCALE as int));
        assert((bias * (SCALE as int)) / bias == SCALE as int) by {
            assert(bias * (SCALE as int) == (SCALE as int) * bias);
        }
    }
}

/// The alignment factor reaches exactly one for opposite headings when the
/// bias rewards opposite directions.
pub proof fn lemma_align_peak_opposite(bias: int)
    requires
        1 <= bias < SCALE as int,
    ensures
        align_factor_s(bias, -(SCALE as int)) == SCALE as int,
{
    lemma_pow_one(bias);
    let num = tdiv(1_000_000, pmax1(pow_s(bias, SCALE as int)));
    lemma_tdiv_abs(1_000_000, bias);
    lemma_div_pos_le(1_000_000, bias);
    let inv = tdiv(1_000_000, bias);
    assert(inv >= 1001) by {
        vstd::arithmetic::div_mod::lemma_div_is_ordered_by_denominator(1_000_000, bias, 999);
        assert(1_000_000int / 999int == 1001int) by (nonlinear_arith);
    }
    assert(num == inv);
    assert(tdiv(inv * (SCALE as int), pmax1(inv)) == SCALE as int) by {
        assert(inv * (SCALE as int) >= 0) by (nonlinear_arith)
            requires
                inv >= 0,
        ;
        vstd::arithmetic::div_mod::lemma_div_multiples_vanish(SCALE as int, inv);
        assert(inv * (SCALE as int) == (SCALE as int) * inv);
    }
}


} // verus!
