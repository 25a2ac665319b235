//! Signed fixed-point arithmetic kernel.
//!
//! A real quantity `x` is stored as the integer closest to `x * SCALE`.
//! Products and quotients of stored values are rescaled with truncated
//! (round-toward-zero) division, computed on 128-bit intermediates so that
//! no chain of operations in the tracer can overflow.

use vstd::arithmetic::div_mod::{
    lemma_div_by_multiple, lemma_div_is_ordered, lemma_div_is_ordered_by_denominator,
    lemma_div_pos_is_pos,
};
use vstd::prelude::*;

verus! {

/// Number of fixed-point units that represent the real value 1.0.
pub const SCALE: i64 = 65536;

/// Comparison tolerance in fixed-point units (about 0.01 in real terms):
/// all sign and zero tests of the tracer are taken up to this slack.
pub const EPS: i64 = 655;

/// Magnitude bound on world coordinates accepted by the tracer
/// (2^30 units, i.e. 16384.0 in real terms).
pub const COORD_MAX: i64 = 1073741824;

/// Magnitude of `a`.
pub open spec fn sabs(a: int) -> int {
    if a < 0 {
        -a
    } else {
        a
    }
}

/// Quotient of `a` by `b` rounded toward zero: the rounding that every
/// rescaling division of the tracer performs.
pub open spec fn tdiv(a: int, b: int) -> int {
    let q = sabs(a) / sabs(b);
    if (a < 0) != (b < 0) {
        -q
    } else {
        q
    }
}

/// Largest `r >= 0` with `r * r <= n` (and 0 for negative `n`).
pub open spec fn sqrt_floor(n: int) -> int
    decreases n,
{
    if n <= 0 {
        0
    } else {
        let r = sqrt_floor(n - 1);
        if (r + 1) * (r + 1) <= n {
            r + 1
        } else {
            r
        }
    }
}

pub proof fn lemma_sqrt_floor_bounds(n: int)
    requires
        n >= 0,
    ensures
        sqrt_floor(n) >= 0,
        sqrt_floor(n) * sqrt_floor(n) <= n,
        n < (sqrt_floor(n) + 1) * (sqrt_floor(n) + 1),
    decreases n,
{
    if n > 0 {
        lemma_sqrt_floor_bounds(n - 1);
        let r = sqrt_floor(n - 1);
        if (r + 1) * (r + 1) <= n {
            assert((r + 2) * (r + 2) > n) by (nonlinear_arith)
                requires
                    r >= 0,
                    n - 1 < (r + 1) * (r + 1),
            ;
        }
    }
}

pub proof fn lemma_sqrt_floor_unique(n: int, r: int)
    requires
        0 <= r,
        r * r <= n,
        n < (r + 1) * (r + 1),
    ensures
        r == sqrt_floor(n),
{
    lemma_sqrt_floor_bounds(n);
    let s = sqrt_floor(n);
    if r < s {
        assert((r + 1) * (r + 1) <= s * s) by (nonlinear_arith)
            requires
                0 <= r,
                r + 1 <= s,
            ;
    }
    if s < r {
        assert((s + 1) * (s + 1) <= r * r) by (nonlinear_arith)
            requires
                0 <= s,
                s + 1 <= r,
            ;
    }
}

/// A square root of an exact square is exact.
pub proof fn lemma_sqrt_floor_square(r: int)
    requires
        r >= 0,
    ensures
        sqrt_floor(r * r) == r,
{
    assert(r * r < (r + 1) * (r + 1)) by (nonlinear_arith)
        requires
            r >= 0,
        ;
    lemma_sqrt_floor_unique(r * r, r);
}

pub proof fn lemma_mul_bound(a: int, b: int, m: int, n: int)
    requires
        sabs(a) <= m,
        sabs(b) <= n,
    ensures
        sabs(a * b) <= m * n,
{
    assert(sabs(a * b) <= m * n) by (nonlinear_arith)
        requires
            sabs(a) <= m,
            sabs(b) <= n,
        ;
}

pub proof fn lemma_mul_le(a: int, b: int, m: int, n: int)
    requires
        0 <= a <= m,
        0 <= b <= n,
    ensures
        a * b <= m * n,
{
    assert(a * b <= m * n) by (nonlinear_arith)
        requires
            0 <= a <= m,
            0 <= b <= n,
        ;
}

/// Truncated division never raises the magnitude.
pub proof fn lemma_tdiv_mag(a: int, b: int)
    requires
        b >= 1,
    ensures
        sabs(tdiv(a, b)) <= sabs(a),
        a >= 0 ==> tdiv(a, b) >= 0,
        a <= 0 ==> tdiv(a, b) <= 0,
{
    lemma_div_is_ordered_by_denominator(sabs(a), 1, b);
    assert(sabs(a) / 1 == sabs(a)) by (nonlinear_arith);
    if a >= 0 {
        lemma_div_pos_is_pos(a, b);
    }
}

/// If `|a| <= m * b` then the truncated quotient of `a` by `b` is at most `m`.
pub proof fn lemma_tdiv_bound(a: int, b: int, m: int)
    requires
        b >= 1,
        m >= 0,
        sabs(a) <= m * b,
    ensures
        sabs(tdiv(a, b)) <= m,
{
    lemma_div_is_ordered(sabs(a), m * b, b);
    lemma_div_by_multiple(m, b);
}

/// Magnitude bound for truncated division by a divisor of either sign.
pub proof fn lemma_tdiv_bound_abs(a: int, b: int, m: int)
    requires
        b != 0,
        m >= 0,
        sabs(a) <= m * sabs(b),
    ensures
        sabs(tdiv(a, b)) <= m,
{
    lemma_div_is_ordered(sabs(a), m * sabs(b), sabs(b));
    lemma_div_by_multiple(m, sabs(b));
}

/// Division is exact on multiples of the divisor.
pub proof fn lemma_tdiv_exact(k: int, b: int)
    requires
        b >= 1,
    ensures
        tdiv(k * b, b) == k,
{
    if k >= 0 {
        lemma_div_by_multiple(k, b);
        assert(k * b >= 0 && sabs(k * b) == k * b) by (nonlinear_arith)
            requires
                k >= 0,
                b >= 1,
            ;
    } else {
        lemma_div_by_multiple(-k, b);
        assert(k * b < 0 && sabs(k * b) == (-k) * b) by (nonlinear_arith)
            requires
                k < 0,
                b >= 1,
            ;
    }
}

/// Truncated division on wide intermediates.
pub fn tdiv128(a: i128, b: i128) -> (r: i128)
    requires
        b != 0,
        a != i128::MIN,
        b != i128::MIN,
    ensures
        r == tdiv(a as int, b as int),
{
    let ua: u128 = if a < 0 {
        (-a) as u128
    } else {
        a as u128
    };
    let ub: u128 = if b < 0 {
        (-b) as u128
    } else {
        b as u128
    };
    let q: u128 = ua / ub;
    proof {
        lemma_div_is_ordered_by_denominator(ua as int, 1, ub as int);
        assert(ua as int / 1 == ua as int) by (nonlinear_arith);
        lemma_div_pos_is_pos(ua as int, ub as int);
    }
    if (a < 0) != (b < 0) {
        -(q as i128)
    } else {
        q as i128
    }
}

/// Floor of the square root, by bisection.
pub fn isqrt128(n: u128) -> (r: u128)
    ensures
        r == sqrt_floor(n as int),
        r * r <= n,
{
    let mut lo: u128 = 0;
    let mut hi: u128 = 0x10000000000000000;
    proof {
        assert((0x10000000000000000 as int) * (0x10000000000000000 as int)
            == 0x100000000000000000000000000000000) by (nonlinear_arith);
    }
    while lo + 1 < hi
        invariant
            lo < hi,
            hi <= 0x10000000000000000,
            (lo as int) * (lo as int) <= n as int,
            (n as int) < (hi as int) * (hi as int),
        decreases hi - lo,
    {
        let mid: u128 = lo + (hi - lo) / 2;
        proof {
            lemma_mul_bound(mid as int, mid as int, 0xffffffffffffffff, 0xffffffffffffffff);
        }
        if mid * mid <= n {
            lo = mid;
        } else {
            hi = mid;
        }
    }
    proof {
        lemma_sqrt_floor_unique(n as int, lo as int);
    }
    lo
}

/// Scale-preserving product of two fixed-point values:
/// `a * b` rescaled by `SCALE`, rounded toward zero.
pub open spec fn fmul(a: int, b: int) -> int {
    tdiv(a * b, SCALE as int)
}

pub fn fixmul(a: i64, b: i64) -> (r: i64)
    requires
        sabs(a as int) * sabs(b as int) <= i64::MAX * (SCALE as int),
    ensures
        r == fmul(a as int, b as int),
{
    proof {
        lemma_mul_bound(a as int, b as int, sabs(a as int), sabs(b as int));
        lemma_tdiv_bound((a as int) * (b as int), SCALE as int, i64::MAX as int);
    }
    let w: i128 = (a as i128) * (b as i128);
    tdiv128(w, SCALE as i128) as i64
}

} // verus!
