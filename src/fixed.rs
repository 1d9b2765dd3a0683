//! Fixed-point arithmetic shared by the geometry and the dynamics.
//!
//! Lengths, positions and velocities are integers in thousandths of a pixel.
//! Unit vectors (collision normals, the cosine and sine of a rotation) are
//! integers scaled by `SCALE`, and so are restitution coefficients.
use vstd::prelude::*;
use vstd::arithmetic::div_mod::{lemma_div_is_ordered, lemma_div_by_multiple, lemma_div_pos_is_pos};

verus! {

/// Fixed-point one: units per pixel, and the length of a unit vector.
pub const SCALE: i64 = 1000;

/// `SCALE * SCALE`.
pub const SCALE_SQ: i64 = 1_000_000;

/// Largest magnitude that a stored position, velocity or acceleration takes.
pub const LIMIT: i64 = 1_000_000_000_000;

/// Bound on the argument of `isqrt` (2^120).
pub const ROOT_ARG_MAX: u128 = 0x100_0000_0000_0000_0000_0000_0000_0000;

/// Integer division rounding toward zero, as Rust's `/` does.
pub open spec fn tdiv(a: int, b: int) -> int {
    if a >= 0 {
        a / b
    } else {
        -((-a) / b)
    }
}

/// `v` saturated into `[-LIMIT, LIMIT]`.
pub open spec fn clamp_limit(v: int) -> int {
    if v > LIMIT {
        LIMIT as int
    } else if v < -LIMIT {
        -LIMIT
    } else {
        v
    }
}

pub open spec fn is_root(n: int, r: int) -> bool {
    0 <= r && r * r <= n && n < (r + 1) * (r + 1)
}

/// The integer square root: the largest `r` with `r * r <= n`.
pub open spec fn root(n: int) -> int {
    choose|r: int| is_root(n, r)
}

pub proof fn lemma_root_unique(n: int, r1: int, r2: int)
    requires
        is_root(n, r1),
        is_root(n, r2),
    ensures
        r1 == r2,
{
    assert(r1 < r2 + 1) by (nonlinear_arith)
        requires
            0 <= r1,
            0 <= r2,
            r1 * r1 < (r2 + 1) * (r2 + 1),
    ;
    assert(r2 < r1 + 1) by (nonlinear_arith)
        requires
            0 <= r1,
            0 <= r2,
            r2 * r2 < (r1 + 1) * (r1 + 1),
    ;
}

/// Once a root is known to exist, `root` names it.
pub proof fn lemma_root_is(n: int, r: int)
    requires
        is_root(n, r),
    ensures
        root(n) == r,
{
    let c = root(n);
    assert(is_root(n, c));
    lemma_root_unique(n, r, c);
}

/// A value whose square is at most `n` is at most the root of `n`.
pub proof fn lemma_root_bounds(n: int, r: int, a: int)
    requires
        is_root(n, r),
        a * a <= n,
    ensures
        -r <= a <= r,
{
    assert(-r <= a <= r) by (nonlinear_arith)
        requires
            0 <= r,
            a * a <= n,
            n < (r + 1) * (r + 1),
    ;
}

pub proof fn lemma_mul_bound(a: int, b: int, x: int, y: int)
    requires
        -x <= a <= x,
        -y <= b <= y,
    ensures
        -(x * y) <= a * b <= x * y,
{
    assert(-(x * y) <= a * b <= x * y) by (nonlinear_arith)
        requires
            -x <= a <= x,
            -y <= b <= y,
    ;
}

/// A quotient rounded toward zero is bounded by the quotient of the bounds.
pub proof fn lemma_tdiv_bound(a: int, b: int, k: int)
    requires
        0 < b,
        0 <= k,
        -(b * k) <= a <= b * k,
    ensures
        -k <= tdiv(a, b) <= k,
{
    lemma_div_by_multiple(k, b);
    assert(k * b == b * k) by (nonlinear_arith);
    if a >= 0 {
        lemma_div_is_ordered(a, b * k, b);
        lemma_div_pos_is_pos(a, b);
    } else {
        lemma_div_is_ordered(-a, b * k, b);
        lemma_div_pos_is_pos(-a, b);
    }
}

/// Dividing an exact multiple gives the factor back, whatever its sign.
pub proof fn lemma_tdiv_exact(x: int, b: int)
    requires
        0 < b,
    ensures
        tdiv(x * b, b) == x,
{
    if x >= 0 {
        lemma_div_by_multiple(x, b);
        assert(x * b >= 0) by (nonlinear_arith)
            requires
                x >= 0,
                b > 0,
        ;
    } else {
        lemma_div_by_multiple(-x, b);
        assert(x * b < 0 && -(x * b) == (-x) * b) by (nonlinear_arith)
            requires
                x < 0,
                b > 0,
        ;
    }
}


pub open spec fn abs(x: int) -> int {
    if x >= 0 {
        x
    } else {
        -x
    }
}

/// A quotient rounded toward zero lies within one divisor of the dividend.
pub proof fn lemma_tdiv_sandwich(a: int, m: int)
    requires
        0 < m,
    ensures
        0 <= abs(tdiv(a, m)) * m <= abs(a),
        abs(a) < (abs(tdiv(a, m)) + 1) * m,
{
    let x = abs(a);
    vstd::arithmetic::div_mod::lemma_fundamental_div_mod(x, m);
    vstd::arithmetic::div_mod::lemma_mod_pos_bound(x, m);
    lemma_div_pos_is_pos(x, m);
    assert(abs(tdiv(a, m)) == x / m);
    assert(0 <= (x / m) * m) by (nonlinear_arith)
        requires
            x / m >= 0,
            m > 0,
    ;
    assert((x / m) * m == m * (x / m)) by (nonlinear_arith);
    assert(((x / m) + 1) * m == m * (x / m) + m) by (nonlinear_arith);
}

/// Two components each within one divisor `d` of `big_p` and `big_q`, whose
/// squared length lies between `lo * d * d` and `hi * d * d`.
pub proof fn lemma_norm_sandwich(p: int, q: int, big_p: int, big_q: int, d: int, lo: int, hi: int)
    requires
        0 <= p,
        0 <= q,
        0 < d,
        p * d <= big_p < (p + 1) * d,
        q * d <= big_q < (q + 1) * d,
        lo * (d * d) <= big_p * big_p + big_q * big_q,
        big_p * big_p + big_q * big_q <= hi * (d * d),
    ensures
        p * p + q * q <= hi,
        lo < (p + 1) * (p + 1) + (q + 1) * (q + 1),
{
    assert((p * p) * (d * d) <= big_p * big_p) by (nonlinear_arith)
        requires
            0 <= p * d <= big_p,
    ;
    assert((q * q) * (d * d) <= big_q * big_q) by (nonlinear_arith)
        requires
            0 <= q * d <= big_q,
    ;
    assert(p * p + q * q <= hi) by (nonlinear_arith)
        requires
            (p * p) * (d * d) + (q * q) * (d * d) <= hi * (d * d),
            d > 0,
    ;
    assert(big_p * big_p < ((p + 1) * (p + 1)) * (d * d)) by (nonlinear_arith)
        requires
            0 <= big_p < (p + 1) * d,
    ;
    assert(big_q * big_q < ((q + 1) * (q + 1)) * (d * d)) by (nonlinear_arith)
        requires
            0 <= big_q < (q + 1) * d,
    ;
    assert(lo < (p + 1) * (p + 1) + (q + 1) * (q + 1)) by (nonlinear_arith)
        requires
            lo * (d * d) < ((p + 1) * (p + 1)) * (d * d) + ((q + 1) * (q + 1)) * (d * d),
            d > 0,
    ;
}

/// Rounding each component down loses little length: if rounding both up
/// by one passes `lo`, the rounded pair is at least `target` long (squared).
pub proof fn lemma_rounded_norm_lower(p: int, q: int, lo: int, target: int, s: int)
    requires
        0 <= p,
        0 <= q,
        0 <= s,
        lo < (p + 1) * (p + 1) + (q + 1) * (q + 1),
        2 * target < s * s,
        target + 2 * s + 2 <= lo,
    ensures
        target <= p * p + q * q,
{
    if p * p + q * q < target {
        assert((p + q) * (p + q) <= 2 * (p * p + q * q)) by (nonlinear_arith);
        assert(p + q < s) by (nonlinear_arith)
            requires
                (p + q) * (p + q) < s * s,
                0 <= p + q,
                0 <= s,
        ;
        assert((p + 1) * (p + 1) + (q + 1) * (q + 1) == p * p + q * q + 2 * (p + q) + 2) by (nonlinear_arith);
    }
}

/// Integer division rounding toward zero.
pub fn div_trunc(a: i128, b: i128) -> (r: i128)
    requires
        0 < b,
        a > i128::MIN,
    ensures
        r == tdiv(a as int, b as int),
{
    if a >= 0 {
        a / b
    } else {
        proof {
            lemma_div_is_ordered(-a, i128::MAX as int, b as int);
            lemma_div_pos_is_pos(-a, b as int);
            assert(i128::MAX as int / b as int <= i128::MAX) by {
                lemma_div_is_ordered_by_one(i128::MAX as int, b as int);
            }
        }
        -((-a) / b)
    }
}

proof fn lemma_div_is_ordered_by_one(x: int, b: int)
    requires
        0 <= x,
        1 <= b,
    ensures
        x / b <= x,
{
    vstd::arithmetic::div_mod::lemma_div_is_ordered_by_denominator(x, 1, b);
}

/// Saturates `v` into `[-LIMIT, LIMIT]`.
pub fn clamp_to_limit(v: i128) -> (r: i64)
    ensures
        r == clamp_limit(v as int),
{
    if v > LIMIT as i128 {
        LIMIT
    } else if v < -(LIMIT as i128) {
        -LIMIT
    } else {
        v as i64
    }
}

/// The integer square root of `n`, by bisection.
pub fn isqrt(n: u128) -> (r: u128)
    requires
        n < ROOT_ARG_MAX,
    ensures
        is_root(n as int, r as int),
        r as int == root(n as int),
        r <= 0x1000_0000_0000_0000,
{
    let mut lo: u128 = 0;
    let mut hi: u128 = 0x1000_0000_0000_0000;
    assert(0x1000_0000_0000_0000u128 * 0x1000_0000_0000_0000u128 == 0x100_0000_0000_0000_0000_0000_0000_0000u128);
    while lo + 1 < hi
        invariant
            lo < hi <= 0x1000_0000_0000_0000,
            lo * lo <= n,
            n < hi * hi,
        decreases hi - lo,
    {
        let mid: u128 = lo + (hi - lo) / 2;
        proof {
            lemma_mul_bound(mid as int, mid as int, 0x1000_0000_0000_0000, 0x1000_0000_0000_0000);
        }
        if mid * mid <= n {
            lo = mid;
        } else {
            hi = mid;
        }
    }
    proof {
        lemma_root_is(n as int, lo as int);
    }
    lo
}

} // verus!
