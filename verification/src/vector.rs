//! Two-dimensional fixed-point vectors.
//!
//! A `Vec2` is a position or a velocity. Its components are millionths of a
//! field unit. Every operation takes vectors whose components are
//! representable (`bounded`) and returns such a vector: sums and products
//! saturate at `COORD_MAX` instead of overflowing.

use vstd::prelude::*;
use crate::units::{
    ceil_sqrt, clamp, clamp_coord, div_toward_zero, floor_sqrt, in_range, isqrt, isqrt_up,
    lemma_div_toward_zero, lemma_product_bound, lemma_whole_units, mul_fixed, scale, COORD_MAX,
    ONE, WRAP_LIMIT,
};
use crate::trig::{
    cos_deg, cos_micro, is_angle, lemma_unit_bounds, nearest_degree, nearest_degree_of, sin_deg,
    sin_micro,
};

verus! {

/// A point or a displacement in the plane.
#[derive(Clone, Copy, Debug, PartialEq, Eq, Structural)]
pub struct Vec2 {
    pub x: i64,
    pub y: i64,
}

/// One coordinate after the bounce at the field's edge: beyond `WRAP_LIMIT`
/// on either side it changes sign, within it is left alone.
pub open spec fn wrap_axis(c: int) -> int {
    if c > WRAP_LIMIT || c < -WRAP_LIMIT {
        -c
    } else {
        c
    }
}

/// The unit vector that points `deg` degrees counter-clockwise of the x axis.
pub open spec fn heading(deg: int) -> Vec2 {
    Vec2 { x: cos_micro(deg) as i64, y: sin_micro(deg) as i64 }
}

impl Vec2 {
    /// Whether both components are representable coordinates.
    pub open spec fn bounded(self) -> bool {
        in_range(self.x as int) && in_range(self.y as int)
    }

    /// The saturating sum of two vectors.
    pub open spec fn spec_plus(self, other: Vec2) -> Vec2 {
        Vec2 { x: clamp(self.x + other.x) as i64, y: clamp(self.y + other.y) as i64 }
    }

    /// The saturating fixed-point product of a vector and a factor.
    pub open spec fn spec_scaled(self, factor: int) -> Vec2 {
        Vec2 {
            x: clamp(mul_fixed(self.x as int, factor)) as i64,
            y: clamp(mul_fixed(self.y as int, factor)) as i64,
        }
    }

    /// The squared length.
    pub open spec fn spec_sqnorm(self) -> int {
        self.x * self.x + self.y * self.y
    }

    /// The inner product.
    pub open spec fn spec_dot(self, other: Vec2) -> int {
        self.x * other.x + self.y * other.y
    }

    /// The length, rounded down.
    pub open spec fn spec_norm(self) -> int {
        floor_sqrt(self.spec_sqnorm())
    }

    /// The vector scaled to unit length: each component is divided by the
    /// length rounded up, so the result is never longer than one unit. The
    /// zero vector has no direction and is returned unchanged.
    pub open spec fn spec_normalized(self) -> Vec2 {
        let n = ceil_sqrt(self.spec_sqnorm());
        if n == 0 {
            self
        } else {
            Vec2 {
                x: div_toward_zero(self.x * ONE, n) as i64,
                y: div_toward_zero(self.y * ONE, n) as i64,
            }
        }
    }

    /// The vector turned counter-clockwise by `deg` degrees.
    pub open spec fn spec_rotated(self, deg: int) -> Vec2 {
        let c = cos_micro(deg);
        let s = sin_micro(deg);
        Vec2 {
            x: clamp(div_toward_zero(self.x * c - self.y * s, ONE as int)) as i64,
            y: clamp(div_toward_zero(self.x * s + self.y * c, ONE as int)) as i64,
        }
    }

    /// The outer product: positive where `other` lies counter-clockwise of
    /// the vector, negative where it lies clockwise.
    pub open spec fn spec_cross(self, other: Vec2) -> int {
        self.x * other.y - self.y * other.x
    }

    /// The angle between two vectors in whole degrees, from zero to a half
    /// turn whichever way round: the degree whose direction, counted from
    /// the vector, is nearest to the direction of `other`. No length is
    /// rounded on the way: the inner product says how far `other` lies
    /// along the vector, the outer product how far across it. With a zero
    /// vector every degree is as near as every other, and the angle is
    /// zero.
    pub open spec fn spec_angle_between(self, other: Vec2) -> int {
        let across = self.spec_cross(other);
        nearest_degree(
            self.spec_dot(other),
            if across >= 0 {
                across
            } else {
                -across
            },
        )
    }

    /// The vector after the bounce at the field's edge, axis by axis.
    pub open spec fn spec_wrapped(self) -> Vec2 {
        Vec2 { x: wrap_axis(self.x as int) as i64, y: wrap_axis(self.y as int) as i64 }
    }

    /// The vector with the given components.
    pub fn new(x: i64, y: i64) -> (v: Vec2)
        ensures
            v == (Vec2 { x, y }),
    {
        Vec2 { x, y }
    }

    /// The vector with the given components, each brought into the
    /// representable range.
    pub fn clamped(x: i64, y: i64) -> (v: Vec2)
        ensures
            v.x == clamp(x as int),
            v.y == clamp(y as int),
            v.bounded(),
    {
        Vec2 { x: clamp_coord(x), y: clamp_coord(y) }
    }

    /// The zero vector.
    pub fn zero() -> (v: Vec2)
        ensures
            v == (Vec2 { x: 0, y: 0 }),
    {
        Vec2 { x: 0, y: 0 }
    }

    /// The unit vector along the x axis, from which angles are counted.
    pub fn x_axis() -> (v: Vec2)
        ensures
            v == (Vec2 { x: ONE, y: 0 }),
    {
        Vec2 { x: ONE, y: 0 }
    }

    /// Whether both components are representable coordinates.
    pub fn is_bounded(&self) -> (b: bool)
        ensures
            b == self.bounded(),
    {
        -COORD_MAX <= self.x && self.x <= COORD_MAX && -COORD_MAX <= self.y && self.y
            <= COORD_MAX
    }

    /// Adds two vectors.
    pub fn plus(self, other: Vec2) -> (v: Vec2)
        requires
            self.bounded(),
            other.bounded(),
        ensures
            v == self.spec_plus(other),
            v.bounded(),
    {
        Vec2 { x: clamp_coord(self.x + other.x), y: clamp_coord(self.y + other.y) }
    }

    /// Multiplies a vector by a fixed-point factor.
    pub fn scaled(self, factor: i64) -> (v: Vec2)
        requires
            self.bounded(),
            in_range(factor as int),
        ensures
            v == self.spec_scaled(factor as int),
            v.bounded(),
    {
        Vec2 { x: clamp_coord(scale(self.x, factor)), y: clamp_coord(scale(self.y, factor)) }
    }

    /// The squared length.
    pub fn sqnorm(self) -> (n: i64)
        requires
            self.bounded(),
        ensures
            n == self.spec_sqnorm(),
            0 <= n <= 2 * COORD_MAX * COORD_MAX,
    {
        proof {
            lemma_product_bound(
                self.x as int,
                self.x as int,
                COORD_MAX as int,
                COORD_MAX as int,
            );
            lemma_product_bound(
                self.y as int,
                self.y as int,
                COORD_MAX as int,
                COORD_MAX as int,
            );
            assert(self.x * self.x >= 0 && self.y * self.y >= 0) by (nonlinear_arith);
        }
        self.x * self.x + self.y * self.y
    }

    /// The length, rounded down.
    pub fn norm(self) -> (n: i64)
        requires
            self.bounded(),
        ensures
            n == self.spec_norm(),
            0 <= n,
    {
        isqrt(self.sqnorm())
    }

    /// Scales the vector to unit length. The result is never longer than
    /// one unit, and for a vector at least one unit long it is shorter by
    /// less than three millionths. The zero vector is returned as it is.
    pub fn normalized(self) -> (v: Vec2)
        requires
            self.bounded(),
        ensures
            v == self.spec_normalized(),
            v.bounded(),
            self.spec_sqnorm() != 0 ==> v.spec_sqnorm() <= ONE * ONE,
            self.spec_sqnorm() >= ONE * ONE ==> v.spec_sqnorm() >= ONE * ONE - 5 * ONE,
            self.spec_sqnorm() == 0 ==> v == self,
    {
        let n: i64 = isqrt_up(self.sqnorm());
        if n == 0 {
            assert(self.spec_sqnorm() == 0) by (nonlinear_arith)
                requires
                    0 <= self.spec_sqnorm() <= n * n,
                    n == 0,
            {
            }
            return self;
        }
        proof {
            lemma_normalized_capped(self, n as int);
            if n >= ONE {
                lemma_normalized_nearly_unit(self, n as int);
            } else {
                assert(self.spec_sqnorm() < ONE * ONE) by (nonlinear_arith)
                    requires
                        self.spec_sqnorm() <= n * n,
                        0 <= n < ONE,
                {
                }
            }
        }
        Vec2 { x: (self.x * ONE) / n, y: (self.y * ONE) / n }
    }

    /// The angle between two vectors in whole degrees, from zero to a half
    /// turn: the degree whose direction is nearest to that of `other`.
    pub fn angle_between(self, other: Vec2) -> (deg: u32)
        requires
            self.bounded(),
            other.bounded(),
        ensures
            deg == self.spec_angle_between(other),
            deg <= 180,
    {
        proof {
            lemma_product_bound(
                self.x as int,
                other.x as int,
                COORD_MAX as int,
                COORD_MAX as int,
            );
            lemma_product_bound(
                self.y as int,
                other.y as int,
                COORD_MAX as int,
                COORD_MAX as int,
            );
            lemma_product_bound(
                self.x as int,
                other.y as int,
                COORD_MAX as int,
                COORD_MAX as int,
            );
            lemma_product_bound(
                self.y as int,
                other.x as int,
                COORD_MAX as int,
                COORD_MAX as int,
            );
        }
        let along: i64 = self.x * other.x + self.y * other.y;
        let cross: i64 = self.x * other.y - self.y * other.x;
        let across: i64 = if cross >= 0 {
            cross
        } else {
            -cross
        };
        nearest_degree_of(along, across)
    }

    /// Turns the vector counter-clockwise by `deg` degrees.
    pub fn rotated(self, deg: u32) -> (v: Vec2)
        requires
            self.bounded(),
            is_angle(deg as int),
        ensures
            v == self.spec_rotated(deg as int),
            v.bounded(),
    {
        let c: i64 = cos_deg(deg);
        let s: i64 = sin_deg(deg);
        proof {
            lemma_product_bound(self.x as int, c as int, COORD_MAX as int, ONE as int);
            lemma_product_bound(self.y as int, s as int, COORD_MAX as int, ONE as int);
            lemma_product_bound(self.x as int, s as int, COORD_MAX as int, ONE as int);
            lemma_product_bound(self.y as int, c as int, COORD_MAX as int, ONE as int);
        }
        let rx: i64 = (self.x * c - self.y * s) / ONE;
        let ry: i64 = (self.x * s + self.y * c) / ONE;
        Vec2 { x: clamp_coord(rx), y: clamp_coord(ry) }
    }
}

/// The unit vector that points `deg` degrees counter-clockwise of the x axis.
pub fn heading_of(deg: u32) -> (v: Vec2)
    requires
        is_angle(deg as int),
    ensures
        v == heading(deg as int),
        v.bounded(),
{
    Vec2 { x: cos_deg(deg), y: sin_deg(deg) }
}

/// Turning the unit vector along the x axis by an angle gives the heading
/// of that angle.
pub proof fn lemma_heading_is_turned_axis(deg: int)
    requires
        is_angle(deg),
    ensures
        (Vec2 { x: ONE, y: 0 }).spec_rotated(deg) == heading(deg),
        heading(deg).bounded(),
{
    let c = cos_micro(deg);
    let s = sin_micro(deg);
    lemma_unit_bounds(deg);
    assert(ONE * c - 0 * s == c * ONE) by (nonlinear_arith);
    assert(ONE * s + 0 * c == s * ONE) by (nonlinear_arith);
    lemma_whole_units(c);
    lemma_whole_units(s);
}

/// Dividing each component of a non-zero vector by its length rounded up
/// leaves a vector no longer than one unit.
pub proof fn lemma_normalized_capped(v: Vec2, n: int)
    requires
        v.bounded(),
        n == ceil_sqrt(v.spec_sqnorm()),
        crate::units::is_ceil_sqrt(v.spec_sqnorm(), n),
        n > 0,
    ensures
        v.spec_normalized().spec_sqnorm() <= ONE * ONE,
        -ONE <= div_toward_zero(v.x * ONE, n) <= ONE,
        -ONE <= div_toward_zero(v.y * ONE, n) <= ONE,
        -COORD_MAX * ONE <= v.x * ONE <= COORD_MAX * ONE,
        -COORD_MAX * ONE <= v.y * ONE <= COORD_MAX * ONE,
{
    let one = ONE as int;
    let a = div_toward_zero(v.x * one, n);
    let b = div_toward_zero(v.y * one, n);
    lemma_div_toward_zero(v.x * one, n);
    lemma_div_toward_zero(v.y * one, n);
    lemma_quotient_square(v.x as int, n, a);
    lemma_quotient_square(v.y as int, n, b);
    let p = a * a;
    let q = b * b;
    let m = n * n;
    let u = one * one;
    let sx = v.x * v.x;
    let sy = v.y * v.y;
    assert(p * m <= sx * u);
    assert(q * m <= sy * u);
    assert((p + q) * m == p * m + q * m) by (nonlinear_arith);
    assert((sx + sy) * u == sx * u + sy * u) by (nonlinear_arith);
    assert((sx + sy) * u <= m * u) by (nonlinear_arith)
        requires
            sx + sy <= m,
            u >= 0,
    {
    }
    assert(m > 0) by (nonlinear_arith)
        requires
            m == n * n,
            n > 0,
    {
    }
    assert(p + q <= u) by (nonlinear_arith)
        requires
            (p + q) * m <= m * u,
            m > 0,
    {
    }
    assert(a * a + b * b <= one * one);
    assert(-one <= a <= one && -one <= b <= one) by (nonlinear_arith)
        requires
            a * a + b * b <= one * one,
            one == 1_000_000,
    {
    }
}

/// Dividing each component of a vector at least one unit long by its length
/// rounded up leaves a vector of unit length to within three millionths:
/// its squared length is no less than one unit squared less five units.
pub proof fn lemma_normalized_nearly_unit(v: Vec2, n: int)
    requires
        v.bounded(),
        n == ceil_sqrt(v.spec_sqnorm()),
        crate::units::is_ceil_sqrt(v.spec_sqnorm(), n),
        n >= ONE,
    ensures
        v.spec_normalized().spec_sqnorm() >= ONE * ONE - 5 * ONE,
{
    let one = ONE as int;
    let x = if v.x >= 0 {
        v.x as int
    } else {
        -v.x
    };
    let y = if v.y >= 0 {
        v.y as int
    } else {
        -v.y
    };
    let a = (x * one) / n;
    let b = (y * one) / n;
    let p = x * one;
    let q = y * one;
    assert(v.x * one == if v.x >= 0 {
        p
    } else {
        -p
    }) by (nonlinear_arith)
        requires
            p == x * one,
            x == if v.x >= 0 {
                v.x as int
            } else {
                -v.x
            },
    {
    }
    assert(v.y * one == if v.y >= 0 {
        q
    } else {
        -q
    }) by (nonlinear_arith)
        requires
            q == y * one,
            y == if v.y >= 0 {
                v.y as int
            } else {
                -v.y
            },
    {
    }
    assert(p >= 0 && q >= 0) by (nonlinear_arith)
        requires
            p == x * one,
            q == y * one,
            x >= 0,
            y >= 0,
            one > 0,
    {
    }
    let na = div_toward_zero(v.x * one, n);
    let nb = div_toward_zero(v.y * one, n);
    assert(na == a || na == -a);
    assert(nb == b || nb == -b);
    assert(na * na == a * a) by (nonlinear_arith)
        requires
            na == a || na == -a,
    {
    }
    assert(nb * nb == b * b) by (nonlinear_arith)
        requires
            nb == b || nb == -b,
    {
    }
    assert(a * n <= p < a * n + n && a >= 0) by (nonlinear_arith)
        requires
            a == p / n,
            n > 0,
            p >= 0,
    {
    }
    assert(b * n <= q < b * n + n && b >= 0) by (nonlinear_arith)
        requires
            b == q / n,
            n > 0,
            q >= 0,
    {
    }
    let s = v.spec_sqnorm();
    assert(x * x + y * y == s) by (nonlinear_arith)
        requires
            s == v.x * v.x + v.y * v.y,
            x == v.x || x == -v.x,
            y == v.y || y == -v.y,
    {
    }
    assert(p * p + q * q == s * (one * one)) by (nonlinear_arith)
        requires
            p == x * one,
            q == y * one,
            x * x + y * y == s,
    {
    }
    assert((n - 1) * (n - 1) * (one * one) < s * (one * one) <= n * n * (one * one))
        by (nonlinear_arith)
        requires
            (n - 1) * (n - 1) < s <= n * n,
            one > 0,
    {
    }
    lemma_quotients_nearly_unit(p, q, n, a, b, one);
}

/// If `a` and `b` are `p` and `q` divided by `n` and rounded down, and the
/// vector `(p, q)` is between `n - 1` and `n` units long, with `n` no less
/// than one unit, then `(a, b)` is nearly one unit long.
proof fn lemma_quotients_nearly_unit(p: int, q: int, n: int, a: int, b: int, one: int)
    requires
        one > 0,
        n >= one,
        p >= 0,
        q >= 0,
        a >= 0,
        b >= 0,
        a * n <= p < a * n + n,
        b * n <= q < b * n + n,
        (n - 1) * (n - 1) * (one * one) < p * p + q * q <= n * n * (one * one),
    ensures
        a * a + b * b >= one * one - 5 * one,
{
    let big_a = a * n;
    let big_b = b * n;
    assert(big_a * big_a >= p * p - 2 * p * n) by (nonlinear_arith)
        requires
            big_a <= p < big_a + n,
            big_a >= 0,
            p >= 0,
            n > 0,
    {
        if p >= n {
            assert(big_a >= p - n);
            assert(big_a * big_a >= (p - n) * (p - n));
        } else {
            assert(p * p <= 2 * p * n);
        }
    }
    assert(big_b * big_b >= q * q - 2 * q * n) by (nonlinear_arith)
        requires
            big_b <= q < big_b + n,
            big_b >= 0,
            q >= 0,
            n > 0,
    {
        if q >= n {
            assert(big_b >= q - n);
            assert(big_b * big_b >= (q - n) * (q - n));
        } else {
            assert(q * q <= 2 * q * n);
        }
    }
    assert(big_a >= 0 && big_b >= 0) by (nonlinear_arith)
        requires
            big_a == a * n,
            big_b == b * n,
            a >= 0,
            b >= 0,
            n > 0,
    {
    }
    let m = n * n;
    let u = one * one;
    let t = n * one;
    assert(t * t == m * u && t >= 0 && m > 0) by (nonlinear_arith)
        requires
            t == n * one,
            m == n * n,
            u == one * one,
            n > 0,
            one > 0,
    {
    }
    assert(2 * (p + q) <= 3 * t) by (nonlinear_arith)
        requires
            p >= 0,
            q >= 0,
            t >= 0,
            p * p + q * q <= t * t,
    {
        assert((p + q) * (p + q) <= 2 * (p * p + q * q));
        if 2 * (p + q) > 3 * t {
            assert(4 * ((p + q) * (p + q)) > 9 * (t * t));
        }
    }
    assert(2 * p * n + 2 * q * n == (2 * (p + q)) * n) by (nonlinear_arith);
    assert((2 * (p + q)) * n <= (3 * t) * n) by (nonlinear_arith)
        requires
            2 * (p + q) <= 3 * t,
            n > 0,
    {
    }
    assert((3 * t) * n == 3 * (m * one)) by (nonlinear_arith)
        requires
            t == n * one,
            m == n * n,
    {
    }
    assert((n - 1) * (n - 1) * u >= m * u - 2 * (m * one)) by (nonlinear_arith)
        requires
            m == n * n,
            u == one * one,
            n >= one,
            one > 0,
    {
        assert((n - 1) * (n - 1) * u == m * u - 2 * n * u + u);
        assert(n * u == (n * one) * one);
        assert((n * one) * one <= (n * n) * one);
    }
    assert(big_a * big_a + big_b * big_b == (a * a + b * b) * m) by (nonlinear_arith)
        requires
            big_a == a * n,
            big_b == b * n,
            m == n * n,
    {
    }
    assert((a * a + b * b) * m >= (u - 5 * one) * m) by (nonlinear_arith)
        requires
            (a * a + b * b) * m >= m * u - 2 * (m * one) - 3 * (m * one),
    {
    }
    assert(a * a + b * b >= u - 5 * one) by (nonlinear_arith)
        requires
            (a * a + b * b) * m >= (u - 5 * one) * m,
            m > 0,
    {
    }
}

/// If `q` is `x` units divided by `n` and rounded toward zero, then `q * n`
/// is no further from zero than `x` units, and so are their squares.
proof fn lemma_quotient_square(x: int, n: int, q: int)
    by (nonlinear_arith)
    requires
        n > 0,
        x >= 0 ==> 0 <= q && q * n <= x * ONE,
        x <= 0 ==> q <= 0 && q * n >= x * ONE,
    ensures
        q * q * (n * n) <= x * x * (ONE * ONE),
{
    let p = q * n;
    let r = x * ONE;
    assert(p * p <= r * r);
    assert(p * p == q * q * (n * n));
    assert(r * r == x * x * (ONE * ONE));
}

/// Bounces a position at the field's edge: each component beyond
/// `WRAP_LIMIT` in magnitude changes sign, the others stay.
pub fn wrap(v: &mut Vec2)
    requires
        old(v).bounded(),
    ensures
        *final(v) == old(v).spec_wrapped(),
        final(v).x == wrap_axis(old(v).x as int),
        final(v).y == wrap_axis(old(v).y as int),
        final(v).bounded(),
{
    if v.x > WRAP_LIMIT || v.x < -WRAP_LIMIT {
        v.x = -v.x;
    }
    if v.y > WRAP_LIMIT || v.y < -WRAP_LIMIT {
        v.y = -v.y;
    }
}

} // verus!
