//! Fixed-point arithmetic: truncating division, integer square roots and a
//! polynomial sine, with the facts the simulation needs about them.

use vstd::prelude::*;

verus! {

use vstd::arithmetic::div_mod::lemma_remainder;
use vstd::arithmetic::div_mod::lemma_div_pos_is_pos;

/// One thousand fixed-point units make one pixel, one second, or one full
/// joystick deflection.
pub const UNIT: i64 = 1000;

/// Absolute value of a mathematical integer.
pub open spec fn iabs(a: int) -> int {
    if a >= 0 {
        a
    } else {
        -a
    }
}

/// Truncating (round-toward-zero) division: the meaning of `/` on Rust's
/// signed integers when the divisor is positive.
pub open spec fn tdiv(a: int, b: int) -> int {
    if a >= 0 {
        a / b
    } else {
        -((-a) / b)
    }
}

/// A truncated quotient keeps the sign of the dividend and its magnitude
/// is the dividend's magnitude shrunk by the divisor.
pub proof fn lemma_tdiv_bounds(a: int, b: int)
    requires
        b >= 1,
    ensures
        b * iabs(tdiv(a, b)) <= iabs(a),
        iabs(a) < b * (iabs(tdiv(a, b)) + 1),
        a >= 0 ==> tdiv(a, b) >= 0,
        a <= 0 ==> tdiv(a, b) <= 0,
        iabs(tdiv(a, b)) <= iabs(a),
{
    let m = iabs(a);
    let q = m / b;
    lemma_div_pos_is_pos(m, b);
    lemma_remainder(m, b);
    assert(iabs(tdiv(a, b)) == q);
    assert(b * q == q * b) by (nonlinear_arith);
    assert(b * (q + 1) == q * b + b) by (nonlinear_arith);
    assert(q <= q * b) by (nonlinear_arith)
        requires
            q >= 0,
            b >= 1,
    ;
}

/// Squaring keeps the order of nonnegative integers.
pub proof fn lemma_sq_le(p: int, q: int)
    requires
        0 <= p,
        0 <= q,
        p * p <= q * q,
    ensures
        p <= q,
{
    assert(p <= q) by (nonlinear_arith)
        requires
            0 <= p,
            0 <= q,
            p * p <= q * q,
    ;
}

/// `(a * b) / d` on values small enough that the product fits in an `i64`.
pub fn mul_div(a: i64, b: i64, d: i64) -> (r: i64)
    requires
        1 <= d,
        iabs(a as int) <= 1_000_000_000,
        iabs(b as int) <= 2_000_000_000,
    ensures
        (r as int) == tdiv((a as int) * (b as int), d as int),
        d * iabs(r as int) <= iabs((a as int) * (b as int)),
        iabs(r as int) <= iabs((a as int) * (b as int)),
        a >= 0 && b >= 0 ==> r >= 0,
{
    proof {
        assert(iabs((a as int) * (b as int)) <= 2_000_000_000_000_000_000int) by (nonlinear_arith)
            requires
                iabs(a as int) <= 1_000_000_000,
                iabs(b as int) <= 2_000_000_000,
        ;
        lemma_tdiv_bounds((a as int) * (b as int), d as int);
        assert(a >= 0 && b >= 0 ==> (a as int) * (b as int) >= 0) by (nonlinear_arith);
    }
    let p: i64 = a * b;
    p / d
}

pub open spec fn is_floor_sqrt(n: int, r: int) -> bool {
    0 <= r && r * r <= n && n < (r + 1) * (r + 1)
}

pub open spec fn is_ceil_sqrt(n: int, r: int) -> bool {
    0 <= r && n <= r * r && if n == 0 {
        r == 0
    } else {
        (r - 1) * (r - 1) < n
    }
}

/// Floor of the mathematical square root of a nonnegative integer.
pub open spec fn sqrt_floor(n: int) -> int {
    choose|r: int| is_floor_sqrt(n, r)
}

/// Ceiling of the mathematical square root of a nonnegative integer.
pub open spec fn sqrt_ceil(n: int) -> int {
    choose|r: int| is_ceil_sqrt(n, r)
}

pub proof fn lemma_floor_sqrt_unique(n: int, a: int, b: int)
    requires
        is_floor_sqrt(n, a),
        is_floor_sqrt(n, b),
    ensures
        a == b,
{
    assert(a == b) by (nonlinear_arith)
        requires
            0 <= a && a * a <= n && n < (a + 1) * (a + 1),
            0 <= b && b * b <= n && n < (b + 1) * (b + 1),
    ;
}

pub proof fn lemma_ceil_sqrt_unique(n: int, a: int, b: int)
    requires
        is_ceil_sqrt(n, a),
        is_ceil_sqrt(n, b),
    ensures
        a == b,
{
    if n == 0 {
    } else {
        assert((a - 1) * (a - 1) >= 0) by (nonlinear_arith);
        assert(n > 0);
        assert(a == b) by (nonlinear_arith)
            requires
                n > 0,
                0 <= a && n <= a * a && (a - 1) * (a - 1) < n,
                0 <= b && n <= b * b && (b - 1) * (b - 1) < n,
        ;
    }
}

proof fn lemma_floor_sqrt_exists(n: int) -> (r: int)
    requires
        0 <= n,
    ensures
        is_floor_sqrt(n, r),
    decreases n,
{
    if n == 0 {
        0
    } else {
        let p = lemma_floor_sqrt_exists(n - 1);
        if n < (p + 1) * (p + 1) {
            p
        } else {
            assert(is_floor_sqrt(n, p + 1)) by (nonlinear_arith)
                requires
                    is_floor_sqrt(n - 1, p),
                    n >= (p + 1) * (p + 1),
            ;
            p + 1
        }
    }
}

/// The floor square root exists and is what `sqrt_floor` picks.
pub proof fn lemma_sqrt_floor(n: int)
    requires
        0 <= n,
    ensures
        is_floor_sqrt(n, sqrt_floor(n)),
{
    let r = lemma_floor_sqrt_exists(n);
    assert(is_floor_sqrt(n, r));
}

/// The ceiling square root exists and is what `sqrt_ceil` picks.
pub proof fn lemma_sqrt_ceil(n: int)
    requires
        0 <= n,
    ensures
        is_ceil_sqrt(n, sqrt_ceil(n)),
{
    lemma_sqrt_floor(n);
    let f = sqrt_floor(n);
    if f * f == n {
        assert(is_ceil_sqrt(n, f)) by (nonlinear_arith)
            requires
                is_floor_sqrt(n, f),
                f * f == n,
        ;
    } else {
        assert(is_ceil_sqrt(n, f + 1)) by (nonlinear_arith)
            requires
                is_floor_sqrt(n, f),
                f * f != n,
        ;
    }
}

/// A bound on a square bounds the root: the ceiling root of a sum of
/// squares dominates each term.
pub proof fn lemma_component_below_sqrt(n: int, c: int)
    requires
        0 <= n,
        c * c <= n,
    ensures
        iabs(c) <= sqrt_ceil(n),
        iabs(c) <= sqrt_floor(n),
{
    lemma_sqrt_floor(n);
    lemma_sqrt_ceil(n);
    assert(iabs(c) <= sqrt_floor(n) && sqrt_floor(n) <= sqrt_ceil(n)) by (nonlinear_arith)
        requires
            c * c <= n,
            is_floor_sqrt(n, sqrt_floor(n)),
            is_ceil_sqrt(n, sqrt_ceil(n)),
    ;
}

/// Floor of the square root.
pub fn isqrt(n: u64) -> (r: u64)
    ensures
        r == sqrt_floor(n as int),
        (r as int) * (r as int) <= (n as int),
        (n as int) < ((r as int) + 1) * ((r as int) + 1),
{
    let nn: u128 = n as u128;
    let mut lo: u128 = 0;
    let mut hi: u128 = 0x1_0000_0000;
    proof {
        assert(nn < 0x1_0000_0000u128 * 0x1_0000_0000u128) by (nonlinear_arith)
            requires
                nn <= u64::MAX,
        ;
    }
    while lo + 1 < hi
        invariant
            lo < hi,
            hi <= 0x1_0000_0000,
            lo * lo <= nn,
            nn < hi * hi,
        decreases hi - lo,
    {
        let mid: u128 = lo + (hi - lo) / 2;
        proof {
            assert(mid * mid < 0x1_0000_0000u128 * 0x1_0000_0000u128) by (nonlinear_arith)
                requires
                    mid < 0x1_0000_0000u128,
            ;
        }
        if mid * mid <= nn {
            lo = mid;
        } else {
            hi = mid;
        }
    }
    proof {
        lemma_sqrt_floor(n as int);
        lemma_floor_sqrt_unique(n as int, lo as int, sqrt_floor(n as int));
    }
    lo as u64
}

/// Ceiling of the square root.
pub fn isqrt_ceil(n: u64) -> (r: u64)
    ensures
        r == sqrt_ceil(n as int),
        (n as int) <= (r as int) * (r as int),
        n == 0 ==> r == 0,
        n > 0 ==> ((r as int) - 1) * ((r as int) - 1) < (n as int),
        (r as int) <= (n as int),
{
    let f = isqrt(n);
    proof {
        assert((f as int) <= (f as int) * (f as int)) by (nonlinear_arith);
        assert(n > 0 && (f as int) * (f as int) == (n as int) ==> ((f as int) - 1) * ((f as int) - 1)
            < (n as int)) by (nonlinear_arith);
        lemma_sqrt_ceil(n as int);
        if f * f == n {
            lemma_ceil_sqrt_unique(n as int, f as int, sqrt_ceil(n as int));
        } else {
            lemma_ceil_sqrt_unique(n as int, f as int + 1, sqrt_ceil(n as int));
        }
    }
    if f * f == n {
        f
    } else {
        f + 1
    }
}

/// Half period and full period of the fixed-point sine, in milliradians.
pub const HALF_TURN: i64 = 3142;

pub const FULL_TURN: i64 = 6284;

/// Rational approximation of the sine on the first half turn, scaled so
/// that a full deflection is one `UNIT`.
pub open spec fn half_sine(x: int) -> int {
    tdiv(16_000 * (x * (3142 - x)), 49_360_820 - 4 * (x * (3142 - x)))
}

/// Sine of a nonnegative angle in milliradians, in `[-UNIT, UNIT]`.
pub open spec fn sine_spec(p: int) -> int {
    let r = p % 6284;
    if r < 3142 {
        half_sine(r)
    } else {
        -half_sine(r - 3142)
    }
}

/// The half-turn sine stays within `[0, UNIT]`.
pub proof fn lemma_half_sine_range(x: int)
    requires
        0 <= x <= 3142,
    ensures
        0 <= half_sine(x) <= 1000,
{
    let a = x * (3142 - x);
    assert(0 <= x * (3142 - x) <= 2_468_041) by (nonlinear_arith)
        requires
            0 <= x <= 3142,
    ;
    lemma_tdiv_bounds(16_000 * a, 49_360_820 - 4 * a);
    assert(16_000 * a <= 1000 * (49_360_820 - 4 * a)) by (nonlinear_arith)
        requires
            a <= 2_468_041,
    ;
    assert(half_sine(x) <= 1000) by {
        let d = 49_360_820 - 4 * a;
        let q = half_sine(x);
        assert(q >= 0);
        assert(d * q <= 16_000 * a);
        assert(q > 1000 ==> d * q > d * 1000) by (nonlinear_arith)
            requires
                d >= 1,
        ;
        assert(d * 1000 == 1000 * d) by (nonlinear_arith);
        assert(1000 * d >= 16_000 * a);
    }
}

fn half_sine_exec(x: i64) -> (r: i64)
    requires
        0 <= x <= 3142,
    ensures
        (r as int) == half_sine(x as int),
        0 <= r <= 1000,
{
    proof {
        assert(0 <= (x as int) * (3142 - (x as int)) <= 2_468_041) by (nonlinear_arith)
            requires
                0 <= (x as int) <= 3142,
        ;
        lemma_half_sine_range(x as int);
        lemma_tdiv_bounds(
            16_000 * ((x as int) * (3142 - (x as int))),
            49_360_820 - 4 * ((x as int) * (3142 - (x as int))),
        );
    }
    let a: i64 = x * (3142 - x);
    let num: i64 = 16_000 * a;
    let den: i64 = 49_360_820 - 4 * a;
    num / den
}

/// Fixed-point sine of a nonnegative angle in milliradians.
pub fn sine(p: i64) -> (r: i64)
    requires
        0 <= p,
    ensures
        (r as int) == sine_spec(p as int),
        -1000 <= r <= 1000,
{
    let r: i64 = p % FULL_TURN;
    proof {
        assert(0 <= (p as int) % 6284 < 6284);
        if (p as int) % 6284 < 3142 {
            lemma_half_sine_range((p as int) % 6284);
        } else {
            lemma_half_sine_range((p as int) % 6284 - 3142);
        }
    }
    if r < HALF_TURN {
        half_sine_exec(r)
    } else {
        -half_sine_exec(r - HALF_TURN)
    }
}

} // verus!
