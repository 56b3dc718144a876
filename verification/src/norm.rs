//! How long a rescaled vector is: never longer than asked for, and shorter by
//! no more than a small tolerance.

use crate::fixed::{lemma_ceil_sqrt_bounds, lemma_trunc_div_bounds, magnitude};
use crate::vector::{
    lemma_scaled_norm_bounds, lemma_scaled_to_bounds, Vec2, LENGTH_LIMIT, SMALL_COMPONENT,
};
use vstd::prelude::*;

verus! {

/// By how much a vector rescaled to `length` may fall short of it: five raw
/// units, and one more for every 2^31 raw units of length.
pub open spec fn length_tolerance(length: int) -> int {
    magnitude(length) / (SMALL_COMPONENT as int) + 5
}

/// The magnitude of a product is the product of the magnitudes.
pub proof fn lemma_magnitude_of_product(x: int, y: int)
    ensures
        magnitude(x * y) == magnitude(x) * magnitude(y),
{
    assert(magnitude(x * y) == magnitude(x) * magnitude(y)) by (nonlinear_arith);
}

/// Squaring keeps the order of numbers that are not negative.
pub proof fn lemma_square_order(low: int, high: int)
    requires
        0 <= low <= high,
    ensures
        low * low <= high * high,
        low < high ==> low * low < high * high,
{
    assert(low * low <= high * high && (low < high ==> low * low < high * high))
        by (nonlinear_arith)
        requires
            0 <= low <= high,
    ;
}

/// The scaled length of a vector that is not zero is at least 2^31.
pub proof fn lemma_scaled_norm_is_large(v: Vec2)
    requires
        !v.is_zero(),
    ensures
        v.scaled_norm() >= SMALL_COMPONENT,
{
    lemma_scaled_norm_bounds(v);
    let k = v.norm_scale();
    if k == 1 {
        assert(v.x * k == v.x && v.y * k == v.y) by (nonlinear_arith)
            requires
                k == 1,
        ;
    } else {
        assert(v.x * k == v.x * 0x1_0000_0000 && v.y * k == v.y * 0x1_0000_0000);
    }
}

/// A vector rescaled to `length` is never longer than `length`.
pub proof fn lemma_scaled_not_longer(v: Vec2, length: int)
    requires
        -LENGTH_LIMIT <= length <= LENGTH_LIMIT,
    ensures
        v.scaled_to(length).len_sq() <= length * length,
{
    let r = v.scaled_to(length);
    if v.is_zero() {
        assert(length * length >= 0) by (nonlinear_arith);
    } else {
        let k = v.norm_scale();
        let sx = v.x * k;
        let sy = v.y * k;
        let n = v.scaled_norm() as int;
        let big = magnitude(length);
        lemma_scaled_norm_bounds(v);
        lemma_scaled_to_bounds(v, length);
        lemma_ceil_sqrt_bounds(((v.x * k) * (v.x * k) + (v.y * k) * (v.y * k)) as nat);
        let p = magnitude(r.x as int);
        let q = magnitude(r.y as int);
        let a = magnitude(sx) * big;
        let b = magnitude(sy) * big;
        lemma_magnitude_of_product(sx, length);
        lemma_magnitude_of_product(sy, length);
        lemma_trunc_div_bounds(sx * length, n);
        lemma_trunc_div_bounds(sy * length, n);
        assert(0 <= p * n && 0 <= q * n) by (nonlinear_arith)
            requires
                p >= 0,
                q >= 0,
                n >= 1,
        ;
        lemma_square_order(p * n, a);
        lemma_square_order(q * n, b);
        assert(a * a == (sx * sx) * (big * big)) by (nonlinear_arith)
            requires
                a == magnitude(sx) * big,
        ;
        assert(b * b == (sy * sy) * (big * big)) by (nonlinear_arith)
            requires
                b == magnitude(sy) * big,
        ;
        assert((p * n) * (p * n) + (q * n) * (q * n) == (p * p + q * q) * (n * n))
            by (nonlinear_arith);
        assert((sx * sx) * (big * big) + (sy * sy) * (big * big) <= (n * n) * (big * big))
            by (nonlinear_arith)
            requires
                sx * sx + sy * sy <= n * n,
        ;
        assert(p * p + q * q <= big * big) by (nonlinear_arith)
            requires
                (p * p + q * q) * (n * n) <= (n * n) * (big * big),
                n >= 1,
        ;
        assert(p * p == r.x * r.x && q * q == r.y * r.y) by (nonlinear_arith)
            requires
                p == magnitude(r.x as int),
                q == magnitude(r.y as int),
        ;
        assert(big * big == length * length) by (nonlinear_arith)
            requires
                big == magnitude(length),
        ;
    }
}

/// A vector that is not zero, rescaled to `length`, falls short of `length` by
/// no more than `length_tolerance(length)`.
pub proof fn lemma_scaled_not_much_shorter(v: Vec2, length: int)
    requires
        !v.is_zero(),
        -LENGTH_LIMIT <= length <= LENGTH_LIMIT,
        magnitude(length) >= length_tolerance(length),
    ensures
        v.scaled_to(length).len_sq() >= (magnitude(length) - length_tolerance(length)) * (
        magnitude(length) - length_tolerance(length)),
{
    let r = v.scaled_to(length);
    let k = v.norm_scale();
    let sx = v.x * k;
    let sy = v.y * k;
    let n = v.scaled_norm() as int;
    let big = magnitude(length);
    lemma_scaled_norm_bounds(v);
    lemma_scaled_norm_is_large(v);
    lemma_scaled_to_bounds(v, length);
    lemma_scaled_not_longer(v, length);
    lemma_ceil_sqrt_bounds(((v.x * k) * (v.x * k) + (v.y * k) * (v.y * k)) as nat);
    assert(sx * sx >= 0 && sy * sy >= 0) by (nonlinear_arith);
    let p = magnitude(r.x as int);
    let q = magnitude(r.y as int);
    let a = magnitude(sx) * big;
    let b = magnitude(sy) * big;
    lemma_magnitude_of_product(sx, length);
    lemma_magnitude_of_product(sy, length);
    lemma_trunc_div_bounds(sx * length, n);
    lemma_trunc_div_bounds(sy * length, n);
    assert(p * p == r.x * r.x && q * q == r.y * r.y) by (nonlinear_arith)
        requires
            p == magnitude(r.x as int),
            q == magnitude(r.y as int),
    ;
    assert(big * big == length * length) by (nonlinear_arith)
        requires
            big == magnitude(length),
    ;
    // The rounded-up components overshoot the exact ones.
    assert(0 <= a && 0 <= b) by (nonlinear_arith)
        requires
            a == magnitude(sx) * big,
            b == magnitude(sy) * big,
            big >= 0,
    ;
    assert((p + 1) * n == p * n + n && (q + 1) * n == q * n + n) by (nonlinear_arith);
    lemma_square_order(a, (p + 1) * n);
    lemma_square_order(b, (q + 1) * n);
    assert(a * a == (sx * sx) * (big * big)) by (nonlinear_arith)
        requires
            a == magnitude(sx) * big,
    ;
    assert(b * b == (sy * sy) * (big * big)) by (nonlinear_arith)
        requires
            b == magnitude(sy) * big,
    ;
    let w = (p + 1) * (p + 1) + (q + 1) * (q + 1);
    assert(((p + 1) * n) * ((p + 1) * n) + ((q + 1) * n) * ((q + 1) * n) == w * (n * n))
        by (nonlinear_arith)
        requires
            w == (p + 1) * (p + 1) + (q + 1) * (q + 1),
    ;
    assert((sx * sx) * (big * big) + (sy * sy) * (big * big) >= ((n - 1) * (n - 1)) * (big
        * big)) by (nonlinear_arith)
        requires
            (n - 1) * (n - 1) < sx * sx + sy * sy,
    ;
    // The exact length is at least `big - slack`.
    let slack = big / (SMALL_COMPONENT as int) + 1;
    let least = big - slack;
    assert(slack * n >= big) by (nonlinear_arith)
        requires
            slack * 0x8000_0000 >= big,
            n >= 0x8000_0000,
            slack >= 0,
    ;
    assert(0 <= least * n <= (n - 1) * big) by (nonlinear_arith)
        requires
            least == big - slack,
            slack * n >= big,
            least >= 0,
            n >= 1,
    ;
    lemma_square_order(least * n, (n - 1) * big);
    assert((least * n) * (least * n) == (least * least) * (n * n)) by (nonlinear_arith);
    assert(((n - 1) * big) * ((n - 1) * big) == ((n - 1) * (n - 1)) * (big * big))
        by (nonlinear_arith);
    assert(least * least < w) by (nonlinear_arith)
        requires
            (least * least) * (n * n) < w * (n * n),
            n >= 1,
    ;
    // Rounding down costs little.
    assert(2 * (p + q) <= 3 * big) by (nonlinear_arith)
        requires
            p * p + q * q <= big * big,
            p >= 0,
            q >= 0,
            big >= 0,
    ;
    assert(p * p + q * q >= (least - 4) * (least - 4)) by (nonlinear_arith)
        requires
            least * least < (p + 1) * (p + 1) + (q + 1) * (q + 1),
            2 * (p + q) <= 3 * big,
            8 * least >= 3 * big + 17,
    ;
}

} // verus!
