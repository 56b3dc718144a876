//! Two-dimensional fixed-point geometry: positions, free vectors and running sums.

use crate::fixed::{
    ceil_sqrt, div_toward_zero, isqrt_ceil, lemma_ceil_sqrt_bounds, lemma_trunc_div_bounds,
    magnitude, trunc_div, ONE,
};
use vstd::prelude::*;

verus! {

/// A location in the world, in 16.16 fixed point.
#[derive(Clone, Copy, Debug, PartialEq, Eq, Structural)]
pub struct Point {
    pub x: i32,
    pub y: i32,
}

/// A direction or velocity. Its components are wide enough to hold the
/// difference of any two positions.
#[derive(Clone, Copy, Debug, PartialEq, Eq, Structural)]
pub struct Vec2 {
    pub x: i64,
    pub y: i64,
}

/// A running total of many vectors.
#[derive(Clone, Copy, Debug, PartialEq, Eq, Structural)]
pub struct Accum {
    pub x: i128,
    pub y: i128,
}

/// Components below this magnitude are scaled up before a square root is taken.
pub const SMALL_COMPONENT: i64 = 0x8000_0000;

/// The factor by which small vectors are scaled up.
pub const SMALL_SCALE: i64 = 0x1_0000_0000;

/// The largest magnitude of a length that a vector can be rescaled to: the
/// largest that a component can hold with either sign.
pub const LENGTH_LIMIT: i64 = 0x7fff_ffff_ffff_ffff;

/// A blend factor confined to the closed range from 0 to 1.
pub open spec fn clamp_unit(factor: int) -> int {
    if factor < 0 {
        0
    } else if factor > ONE {
        ONE as int
    } else {
        factor
    }
}

/// Linear interpolation from `from` toward `to`; the factor is clamped, so the
/// result never leaves the span between the two.
pub open spec fn lerp(from: int, to: int, factor: int) -> int {
    from + trunc_div((to - from) * clamp_unit(factor), ONE as int)
}

impl Point {
    /// The squared Euclidean distance between two positions, in raw units.
    pub open spec fn dist_sq(self, other: Point) -> int {
        (self.x - other.x) * (self.x - other.x) + (self.y - other.y) * (self.y - other.y)
    }

    /// Whether `other` lies strictly closer than `radius`.
    pub open spec fn within(self, other: Point, radius: i32) -> bool {
        radius > 0 && self.dist_sq(other) < radius * radius
    }

    /// The vector that leads from `other` to `self`.
    pub open spec fn offset_from(self, other: Point) -> Vec2 {
        Vec2 { x: (self.x - other.x) as i64, y: (self.y - other.y) as i64 }
    }

    /// Tests whether `other` lies strictly closer than `radius`.
    pub fn is_within(&self, other: &Point, radius: i32) -> (near: bool)
        ensures
            near == self.within(*other, radius),
    {
        if radius <= 0 {
            return false;
        }
        let dx: i128 = self.x as i128 - other.x as i128;
        let dy: i128 = self.y as i128 - other.y as i128;
        let r: i128 = radius as i128;
        assert(dx * dx <= 0x1_0000_0000_0000_0000 && dx * dx >= 0) by (nonlinear_arith)
            requires
                -0x1_0000_0000 <= dx <= 0x1_0000_0000,
        ;
        assert(dy * dy <= 0x1_0000_0000_0000_0000 && dy * dy >= 0) by (nonlinear_arith)
            requires
                -0x1_0000_0000 <= dy <= 0x1_0000_0000,
        ;
        assert(r * r <= 0x1_0000_0000_0000_0000 && r * r >= 0) by (nonlinear_arith)
            requires
                0 <= r <= 0x1_0000_0000,
        ;
        dx * dx + dy * dy < r * r
    }

    /// Computes the vector that leads from `other` to `self`.
    pub fn minus(&self, other: &Point) -> (offset: Vec2)
        ensures
            offset == self.offset_from(*other),
    {
        Vec2 { x: self.x as i64 - other.x as i64, y: self.y as i64 - other.y as i64 }
    }
}

impl Vec2 {
    /// The zero vector.
    pub open spec fn zero() -> Vec2 {
        Vec2 { x: 0, y: 0 }
    }

    pub open spec fn is_zero(self) -> bool {
        self.x == 0 && self.y == 0
    }

    /// Sum of the squared components.
    pub open spec fn len_sq(self) -> int {
        self.x * self.x + self.y * self.y
    }

    /// The factor applied to both components before the length is measured:
    /// short vectors are scaled up so that rounding the root loses little.
    pub open spec fn norm_scale(self) -> int {
        if -SMALL_COMPONENT < self.x < SMALL_COMPONENT && -SMALL_COMPONENT < self.y
            < SMALL_COMPONENT {
            SMALL_SCALE as int
        } else {
            1
        }
    }

    /// Length of the scaled vector, rounded up.
    pub open spec fn scaled_norm(self) -> nat {
        let k = self.norm_scale();
        ceil_sqrt(((self.x * k) * (self.x * k) + (self.y * k) * (self.y * k)) as nat)
    }

    /// The vector that points the way `self` does and is `length` long: each
    /// component is multiplied by `length`, divided by the length of `self` and
    /// rounded toward zero. The zero vector has no direction and stays zero.
    pub open spec fn scaled_to(self, length: int) -> Vec2 {
        if self.is_zero() {
            Vec2::zero()
        } else {
            let k = self.norm_scale();
            let n = self.scaled_norm() as int;
            Vec2 {
                x: trunc_div(self.x * k * length, n) as i64,
                y: trunc_div(self.y * k * length, n) as i64,
            }
        }
    }

    /// The unit vector in the direction of `self`.
    pub open spec fn unit(self) -> Vec2 {
        self.scaled_to(ONE as int)
    }

    /// `self` moved toward `target` by `factor` (clamped to the range 0 to 1).
    pub open spec fn blended(self, target: Vec2, factor: int) -> Vec2 {
        Vec2 {
            x: lerp(self.x as int, target.x as int, factor) as i64,
            y: lerp(self.y as int, target.y as int, factor) as i64,
        }
    }

    /// Rescales the vector to the given length, keeping its direction.
    pub fn with_length(&self, length: i64) -> (scaled: Vec2)
        requires
            -LENGTH_LIMIT <= length <= LENGTH_LIMIT,
        ensures
            scaled == self.scaled_to(length as int),
            magnitude(scaled.x as int) <= magnitude(length as int),
            magnitude(scaled.y as int) <= magnitude(length as int),
    {
        if self.x == 0 && self.y == 0 {
            return Vec2 { x: 0, y: 0 };
        }
        let small: bool = -SMALL_COMPONENT < self.x && self.x < SMALL_COMPONENT && -SMALL_COMPONENT
            < self.y && self.y < SMALL_COMPONENT;
        let sx: i128 = if small {
            (self.x as i128) * (SMALL_SCALE as i128)
        } else {
            self.x as i128
        };
        let sy: i128 = if small {
            (self.y as i128) * (SMALL_SCALE as i128)
        } else {
            self.y as i128
        };
        assert(sx == self.x * self.norm_scale() && sy == self.y * self.norm_scale());
        proof {
            lemma_scaled_norm_bounds(*self);
            lemma_scaled_to_bounds(*self, length as int);
        }
        let ax: u128 = if sx < 0 {
            (-sx) as u128
        } else {
            sx as u128
        };
        let ay: u128 = if sy < 0 {
            (-sy) as u128
        } else {
            sy as u128
        };
        assert(ax * ax <= 0x4000_0000_0000_0000_0000_0000_0000_0000 && ay * ay
            <= 0x4000_0000_0000_0000_0000_0000_0000_0000 && ax * ax == sx * sx && ay * ay == sy
            * sy) by (nonlinear_arith)
            requires
                ax <= 0x8000_0000_0000_0000,
                ay <= 0x8000_0000_0000_0000,
                ax == sx || ax == -sx,
                ay == sy || ay == -sy,
        ;
        let n: u128 = isqrt_ceil(ax * ax + ay * ay);
        let len: i128 = length as i128;
        assert(magnitude(sx * len) <= 0x4000_0000_0000_0000_0000_0000_0000_0000 && magnitude(
            sy * len,
        ) <= 0x4000_0000_0000_0000_0000_0000_0000_0000) by (nonlinear_arith)
            requires
                -0x8000_0000_0000_0000 <= sx <= 0x8000_0000_0000_0000,
                -0x8000_0000_0000_0000 <= sy <= 0x8000_0000_0000_0000,
                -0x8000_0000_0000_0000 <= len <= 0x8000_0000_0000_0000,
        ;
        let qx: i128 = div_toward_zero(sx * len, n as i128);
        let qy: i128 = div_toward_zero(sy * len, n as i128);
        assert(i64::MIN <= qx <= i64::MAX && i64::MIN <= qy <= i64::MAX);
        Vec2 { x: qx as i64, y: qy as i64 }
    }

    /// The unit vector in the direction of `self`; zero for the zero vector.
    pub fn normalized(&self) -> (unit: Vec2)
        ensures
            unit == self.unit(),
            -ONE <= unit.x <= ONE,
            -ONE <= unit.y <= ONE,
    {
        self.with_length(ONE as i64)
    }

    /// Moves the vector toward `target` by `factor`, a 16.16 fraction that is
    /// clamped to the range 0 to 1.
    pub fn blend(&self, target: &Vec2, factor: i32) -> (mixed: Vec2)
        ensures
            mixed == self.blended(*target, factor as int),
    {
        let f: i128 = if factor < 0 {
            0
        } else if factor > ONE {
            ONE as i128
        } else {
            factor as i128
        };
        let dx: i128 = target.x as i128 - self.x as i128;
        let dy: i128 = target.y as i128 - self.y as i128;
        proof {
            lemma_lerp_between(self.x as int, target.x as int, factor as int);
            lemma_lerp_between(self.y as int, target.y as int, factor as int);
            lemma_factor_product_bound(dx as int, f as int);
            lemma_factor_product_bound(dy as int, f as int);
        }
        let mx: i128 = self.x as i128 + div_toward_zero(dx * f, ONE as i128);
        let my: i128 = self.y as i128 + div_toward_zero(dy * f, ONE as i128);
        assert(i64::MIN <= mx <= i64::MAX && i64::MIN <= my <= i64::MAX);
        Vec2 { x: mx as i64, y: my as i64 }
    }
}

/// A blend of two vectors fits 64 bits: each component is the interpolation
/// of the two components, which lies between them.
pub proof fn lemma_blended_fits(from: Vec2, to: Vec2, factor: int)
    ensures
        from.blended(to, factor).x == lerp(from.x as int, to.x as int, factor),
        from.blended(to, factor).y == lerp(from.y as int, to.y as int, factor),
{
    lemma_lerp_between(from.x as int, to.x as int, factor);
    lemma_lerp_between(from.y as int, to.y as int, factor);
}

/// The length of a vector that is not zero is at least one and at least the
/// magnitude of either scaled component.
pub proof fn lemma_scaled_norm_bounds(v: Vec2)
    requires
        !v.is_zero(),
    ensures
        v.scaled_norm() >= 1,
        magnitude(v.x * v.norm_scale()) <= v.scaled_norm(),
        magnitude(v.y * v.norm_scale()) <= v.scaled_norm(),
        magnitude(v.x * v.norm_scale()) <= 0x8000_0000_0000_0000,
        magnitude(v.y * v.norm_scale()) <= 0x8000_0000_0000_0000,
{
    let k = v.norm_scale();
    let sx = v.x * k;
    let sy = v.y * k;
    let squares = (sx * sx + sy * sy) as nat;
    let n = ceil_sqrt(squares);
    if k == 1 {
        assert(sx == v.x && sy == v.y) by (nonlinear_arith)
            requires
                sx == v.x * k,
                sy == v.y * k,
                k == 1,
        ;
    } else {
        assert(sx == v.x * 0x1_0000_0000 && sy == v.y * 0x1_0000_0000);
    }
    assert(sx * sx >= 0 && sy * sy >= 0 && sx * sx + sy * sy > 0) by (nonlinear_arith)
        requires
            sx != 0 || sy != 0,
    ;
    lemma_ceil_sqrt_bounds(squares);
    assert(magnitude(sx) <= n && magnitude(sy) <= n) by (nonlinear_arith)
        requires
            sx * sx + sy * sy <= n * n,
            n >= 0,
    ;
}

/// No component of a rescaled vector is longer than the length asked for, so
/// the components fit 64 bits.
pub proof fn lemma_scaled_to_bounds(v: Vec2, length: int)
    requires
        -LENGTH_LIMIT <= length <= LENGTH_LIMIT,
    ensures
        magnitude(v.scaled_to(length).x as int) <= magnitude(length),
        magnitude(v.scaled_to(length).y as int) <= magnitude(length),
        !v.is_zero() ==> v.scaled_to(length).x == trunc_div(
            v.x * v.norm_scale() * length,
            v.scaled_norm() as int,
        ),
        !v.is_zero() ==> v.scaled_to(length).y == trunc_div(
            v.y * v.norm_scale() * length,
            v.scaled_norm() as int,
        ),
{
    if !v.is_zero() {
        let k = v.norm_scale();
        let n = v.scaled_norm() as int;
        lemma_scaled_norm_bounds(v);
        lemma_scaled_product_bound(v.x * k, length, n);
        lemma_scaled_product_bound(v.y * k, length, n);
    }
}

/// A component no longer than the norm, times a length, divided by the norm,
/// is no longer than the length.
pub proof fn lemma_scaled_product_bound(component: int, length: int, norm: int)
    requires
        norm > 0,
        magnitude(component) <= norm,
    ensures
        magnitude(component * length) <= norm * magnitude(length),
        magnitude(trunc_div(component * length, norm)) <= magnitude(length),
{
    let c = magnitude(component);
    let l = magnitude(length);
    assert(magnitude(component * length) == c * l) by (nonlinear_arith)
        requires
            c == magnitude(component),
            l == magnitude(length),
    ;
    assert(c * l <= norm * l) by (nonlinear_arith)
        requires
            0 <= c <= norm,
            0 <= l,
    ;
    lemma_trunc_div_bounds(component * length, norm);
    let q = magnitude(trunc_div(component * length, norm));
    assert(q <= l) by (nonlinear_arith)
        requires
            q * norm <= norm * l,
            norm > 0,
    ;
}

/// A difference times a clamped factor stays within the difference times one.
pub proof fn lemma_factor_product_bound(difference: int, factor: int)
    requires
        0 <= factor <= ONE,
    ensures
        magnitude(difference * factor) <= magnitude(difference) * ONE,
        difference >= 0 ==> difference * factor >= 0,
        difference <= 0 ==> difference * factor <= 0,
{
    assert(magnitude(difference * factor) <= magnitude(difference) * ONE && (difference >= 0
        ==> difference * factor >= 0) && (difference <= 0 ==> difference * factor <= 0))
        by (nonlinear_arith)
        requires
            0 <= factor <= ONE,
    ;
}

/// Interpolation never leaves the span between its two ends; a factor of zero
/// or less keeps the start, and a factor of one or more reaches the end.
pub proof fn lemma_lerp_between(from: int, to: int, factor: int)
    ensures
        from <= to ==> from <= lerp(from, to, factor) <= to,
        to <= from ==> to <= lerp(from, to, factor) <= from,
        factor <= 0 ==> lerp(from, to, factor) == from,
        factor >= ONE ==> lerp(from, to, factor) == to,
{
    let f = clamp_unit(factor);
    let d = to - from;
    lemma_factor_product_bound(d, f);
    lemma_trunc_div_bounds(d * f, ONE as int);
    let q = magnitude(trunc_div(d * f, ONE as int));
    assert(q <= magnitude(d)) by (nonlinear_arith)
        requires
            q * ONE <= magnitude(d) * ONE,
    ;
    if factor <= 0 {
        assert(d * f == 0) by (nonlinear_arith)
            requires
                f == 0,
        ;
    }
    if factor >= ONE {
        assert(d * f == d * ONE) by (nonlinear_arith)
            requires
                f == ONE,
        ;
    }
}

} // verus!
