//! Fixed-point scalars.
//!
//! Every quantity of the simulation is an integer that counts 1/65536ths of a
//! unit (the 16.16 format). Positions, distances, speeds, gains and times are
//! `i32`, velocities are `i64`, and intermediate results use wider integers
//! still, so that no operation can overflow.

use vstd::prelude::*;

verus! {

/// The raw value of 1.0.
pub const ONE: i32 = 65536;

/// The raw value of 10.0: the product of a steering gain and the elapsed time
/// is divided by it to give the fraction of a blend.
pub const BLEND_SCALE: i64 = 655360;

/// Absolute value of a mathematical integer.
pub open spec fn magnitude(a: int) -> int {
    if a < 0 {
        -a
    } else {
        a
    }
}

/// Quotient rounded toward zero, as machine division rounds it.
pub open spec fn trunc_div(a: int, b: int) -> int
    recommends
        b > 0,
{
    if a >= 0 {
        a / b
    } else {
        -((-a) / b)
    }
}

/// The largest natural number whose square does not exceed `n`.
pub open spec fn floor_sqrt(n: nat) -> nat
    decreases n,
{
    if n == 0 {
        0
    } else {
        let r = floor_sqrt((n - 1) as nat);
        if (r + 1) * (r + 1) <= n {
            r + 1
        } else {
            r
        }
    }
}

/// The smallest natural number whose square is at least `n`.
pub open spec fn ceil_sqrt(n: nat) -> nat {
    let r = floor_sqrt(n);
    if r * r == n {
        r
    } else {
        r + 1
    }
}

/// `floor_sqrt(n)` squares to at most `n`, and its successor squares to more.
pub proof fn lemma_floor_sqrt_bounds(n: nat)
    ensures
        floor_sqrt(n) * floor_sqrt(n) <= n,
        n < (floor_sqrt(n) + 1) * (floor_sqrt(n) + 1),
    decreases n,
{
    if n > 0 {
        let r = floor_sqrt((n - 1) as nat);
        lemma_floor_sqrt_bounds((n - 1) as nat);
        if (r + 1) * (r + 1) <= n {
            assert((r + 1) * (r + 1) < (r + 1 + 1) * (r + 1 + 1)) by (nonlinear_arith);
        } else {
        }
    } else {
        assert(0 * 0 == 0 && (0 + 1) * (0 + 1) == 1) by (nonlinear_arith);
    }
}

/// Only one natural number sits between the two bounds of `lemma_floor_sqrt_bounds`.
pub proof fn lemma_floor_sqrt_unique(n: nat, r: nat)
    requires
        r * r <= n,
        n < (r + 1) * (r + 1),
    ensures
        r == floor_sqrt(n),
{
    let s = floor_sqrt(n);
    lemma_floor_sqrt_bounds(n);
    if r < s {
        assert((r + 1) * (r + 1) <= s * s) by (nonlinear_arith)
            requires
                r + 1 <= s,
        ;
    } else if s < r {
        assert((s + 1) * (s + 1) <= r * r) by (nonlinear_arith)
            requires
                s + 1 <= r,
        ;
    }
}

/// `ceil_sqrt(n)` squares to at least `n`, and its predecessor squares to less.
pub proof fn lemma_ceil_sqrt_bounds(n: nat)
    ensures
        n <= ceil_sqrt(n) * ceil_sqrt(n),
        n > 0 ==> ceil_sqrt(n) >= 1 && (ceil_sqrt(n) - 1) * (ceil_sqrt(n) - 1) < n,
{
    lemma_floor_sqrt_bounds(n);
    let r = floor_sqrt(n);
    if r * r != n {
    } else if n > 0 {
        assert(r >= 1) by (nonlinear_arith)
            requires
                r * r == n,
                n > 0,
        ;
        assert((r - 1) * (r - 1) < r * r) by (nonlinear_arith)
            requires
                r >= 1,
        ;
    }
}

/// Integer square root, rounded down.
pub fn isqrt(n: u128) -> (root: u64)
    ensures
        root as nat == floor_sqrt(n as nat),
{
    let mut lo: u128 = 0;
    let mut hi: u128 = 0x1_0000_0000_0000_0000;
    while hi - lo > 1
        invariant
            lo < hi <= 0x1_0000_0000_0000_0000,
            lo * lo <= n,
            n < hi * hi,
        decreases hi - lo,
    {
        let mid: u128 = lo + (hi - lo) / 2;
        assert(mid * mid < 0x1_0000_0000_0000_0000_0000_0000_0000_0000) by (nonlinear_arith)
            requires
                mid < 0x1_0000_0000_0000_0000,
        ;
        if mid * mid <= n {
            lo = mid;
        } else {
            hi = mid;
        }
    }
    proof {
        lemma_floor_sqrt_unique(n as nat, lo as nat);
    }
    assert(lo <= u64::MAX);
    lo as u64
}

/// Integer square root, rounded up.
pub fn isqrt_ceil(n: u128) -> (root: u128)
    ensures
        root as nat == ceil_sqrt(n as nat),
        root <= 0x1_0000_0000_0000_0000,
{
    let floor: u128 = isqrt(n) as u128;
    proof {
        lemma_floor_sqrt_bounds(n as nat);
    }
    if floor * floor == n {
        floor
    } else {
        floor + 1
    }
}

/// Divides a wide signed value by a positive one, rounding toward zero.
pub fn div_toward_zero(a: i128, b: i128) -> (q: i128)
    requires
        b > 0,
    ensures
        q == trunc_div(a as int, b as int),
        magnitude(q as int) <= magnitude(a as int),
{
    proof {
        lemma_trunc_div_bounds(a as int, b as int);
    }
    a / b
}

/// A truncated quotient lies between zero and the dividend, and times the
/// divisor it misses the dividend by less than the divisor.
pub proof fn lemma_trunc_div_bounds(a: int, b: int)
    requires
        b > 0,
    ensures
        magnitude(trunc_div(a, b)) <= magnitude(a),
        a >= 0 ==> trunc_div(a, b) >= 0,
        a <= 0 ==> trunc_div(a, b) <= 0,
        magnitude(trunc_div(a, b)) * b <= magnitude(a),
        magnitude(a) < magnitude(trunc_div(a, b)) * b + b,
        magnitude(trunc_div(a, b)) == magnitude(a) / b,
{
    let m = magnitude(a);
    vstd::arithmetic::div_mod::lemma_fundamental_div_mod(m, b);
    vstd::arithmetic::div_mod::lemma_mod_bound(m, b);
    vstd::arithmetic::div_mod::lemma_div_pos_is_pos(m, b);
    assert(m / b <= m) by (nonlinear_arith)
        requires
            m == b * (m / b) + m % b,
            0 <= m % b,
            b >= 1,
            m / b >= 0,
    ;
}

} // verus!
