//! Fixed-point scalars.
//!
//! Every length, speed and health in the simulation is an `i64` counted in
//! millionths of a field unit: the visible field spans `-ONE ..= ONE` on each
//! axis. Products are divided back by `ONE` and round toward zero, so that
//! negating an operand negates the result exactly.

use vstd::prelude::*;

verus! {

/// One field unit.
pub const ONE: i64 = 1_000_000;

/// Largest magnitude a coordinate may take; arithmetic on coordinates
/// saturates here.
pub const COORD_MAX: i64 = 100_000_000;

/// Distance, per unit of speed, that one tick covers.
pub const STEP: i64 = 20_000;

/// Speed gained by one tick of thrust.
pub const ACCEL: i64 = 10_000;

/// A coordinate beyond this magnitude is reflected to the opposite side.
pub const WRAP_LIMIT: i64 = 1_050_000;

/// No ship moves faster than this.
pub const SPEED_CAP: i64 = 1_000_000;

/// `SPEED_CAP` squared.
pub const SPEED_CAP_SQ: i64 = 1_000_000_000_000;

/// Speed of a bullet as it leaves the ship.
pub const MUZZLE_SPEED: i64 = 2_000_000;

/// A bullet whose squared distance from the origin exceeds this is swept.
pub const SWEEP_LIMIT_SQ: i64 = 2_000_000_000_000;

/// Health of an undamaged entity.
pub const FULL_HEALTH: i64 = 1_000_000;

/// Health that one bullet takes from a mook.
pub const DAMAGE: i64 = 500_000;

/// Whether `c` is a representable coordinate.
pub open spec fn in_range(c: int) -> bool {
    -COORD_MAX <= c <= COORD_MAX
}

/// `c` brought back into the representable range.
pub open spec fn clamp(c: int) -> int {
    if c < -COORD_MAX {
        -(COORD_MAX as int)
    } else if c > COORD_MAX {
        COORD_MAX as int
    } else {
        c
    }
}

/// The quotient `a / b` rounded toward zero, for a positive divisor.
pub open spec fn div_toward_zero(a: int, b: int) -> int
    recommends
        b > 0,
{
    if a >= 0 {
        a / b
    } else {
        -((-a) / b)
    }
}

/// The fixed-point product of `a` and `b`.
pub open spec fn mul_fixed(a: int, b: int) -> int {
    div_toward_zero(a * b, ONE as int)
}

/// Whether `r` is the integer square root of `n`, rounded down.
pub open spec fn is_floor_sqrt(n: int, r: int) -> bool {
    0 <= r && r * r <= n < (r + 1) * (r + 1)
}

/// Whether `r` is the integer square root of `n`, rounded up.
pub open spec fn is_ceil_sqrt(n: int, r: int) -> bool {
    0 <= r && n <= r * r && (r > 0 ==> (r - 1) * (r - 1) < n)
}

/// The integer square root of `n`, rounded down.
pub open spec fn floor_sqrt(n: int) -> int {
    choose|r: int| is_floor_sqrt(n, r)
}

/// The integer square root of `n`, rounded up.
pub open spec fn ceil_sqrt(n: int) -> int {
    choose|r: int| is_ceil_sqrt(n, r)
}

/// Only one number is the square root of `n` rounded down.
pub proof fn lemma_floor_sqrt_unique(n: int, r: int)
    requires
        is_floor_sqrt(n, r),
    ensures
        floor_sqrt(n) == r,
{
    let c = floor_sqrt(n);
    assert(is_floor_sqrt(n, c));
    assert(c == r) by (nonlinear_arith)
        requires
            is_floor_sqrt(n, c),
            is_floor_sqrt(n, r),
    {
        if c < r {
            assert((c + 1) * (c + 1) <= r * r);
        } else if r < c {
            assert((r + 1) * (r + 1) <= c * c);
        }
    }
}

/// Only one number is the square root of `n` rounded up.
pub proof fn lemma_ceil_sqrt_unique(n: int, r: int)
    requires
        is_ceil_sqrt(n, r),
    ensures
        ceil_sqrt(n) == r,
{
    let c = ceil_sqrt(n);
    assert(is_ceil_sqrt(n, c));
    assert(c == r) by (nonlinear_arith)
        requires
            is_ceil_sqrt(n, c),
            is_ceil_sqrt(n, r),
    {
        if c < r {
            assert(c * c <= (r - 1) * (r - 1));
        } else if r < c {
            assert(r * r <= (c - 1) * (c - 1));
        }
    }
}

/// Every number from zero up has a square root rounded down and one
/// rounded up.
pub proof fn lemma_sqrt_exists(n: int)
    requires
        0 <= n,
    ensures
        is_floor_sqrt(n, floor_sqrt(n)),
        is_ceil_sqrt(n, ceil_sqrt(n)),
    decreases n,
{
    if n == 0 {
        assert(is_floor_sqrt(0, 0));
        assert(is_ceil_sqrt(0, 0));
    } else {
        lemma_sqrt_exists(n - 1);
        let r = floor_sqrt(n - 1);
        let f = if n < (r + 1) * (r + 1) {
            r
        } else {
            r + 1
        };
        assert(is_floor_sqrt(n, f)) by (nonlinear_arith)
            requires
                is_floor_sqrt(n - 1, r),
                f == if n < (r + 1) * (r + 1) {
                    r
                } else {
                    r + 1
                },
        {
        }
        let c = if f * f == n {
            f
        } else {
            f + 1
        };
        assert(is_ceil_sqrt(n, c)) by (nonlinear_arith)
            requires
                is_floor_sqrt(n, f),
                c == if f * f == n {
                    f
                } else {
                    f + 1
                },
        {
        }
    }
}

/// The product of two bounded numbers is bounded by the product of the bounds.
pub proof fn lemma_product_bound(a: int, b: int, m: int, n: int)
    by (nonlinear_arith)
    requires
        -m <= a <= m,
        -n <= b <= n,
    ensures
        -(m * n) <= a * b <= m * n,
{
}

/// Rounding toward zero never moves a quotient away from zero, and is odd.
pub proof fn lemma_div_toward_zero(a: int, b: int)
    by (nonlinear_arith)
    requires
        b > 0,
    ensures
        a >= 0 ==> 0 <= div_toward_zero(a, b) <= a,
        a <= 0 ==> a <= div_toward_zero(a, b) <= 0,
        div_toward_zero(-a, b) == -div_toward_zero(a, b),
        a >= 0 ==> div_toward_zero(a, b) * b <= a,
        a <= 0 ==> div_toward_zero(a, b) * b >= a,
{
}

/// A whole number of units divided by one unit is that number.
pub proof fn lemma_whole_units(c: int)
    ensures
        div_toward_zero(c * ONE, ONE as int) == c,
{
    assert(c * ONE == c * 1_000_000);
    if c < 0 {
        assert(-(c * ONE) == (-c) * 1_000_000);
    }
}

/// Brings `c` back into the representable range.
pub fn clamp_coord(c: i64) -> (r: i64)
    ensures
        r == clamp(c as int),
        in_range(r as int),
{
    if c < -COORD_MAX {
        -COORD_MAX
    } else if c > COORD_MAX {
        COORD_MAX
    } else {
        c
    }
}

/// The fixed-point product of two representable numbers.
pub fn scale(a: i64, b: i64) -> (r: i64)
    requires
        in_range(a as int),
        in_range(b as int),
    ensures
        r == mul_fixed(a as int, b as int),
{
    proof {
        lemma_product_bound(a as int, b as int, COORD_MAX as int, COORD_MAX as int);
    }
    let p: i64 = a * b;
    p / ONE
}

/// The integer square root of `n`, rounded down.
pub fn isqrt(n: i64) -> (r: i64)
    requires
        0 <= n,
    ensures
        r == floor_sqrt(n as int),
        is_floor_sqrt(n as int, r as int),
        r <= 3_037_000_499,
{
    let mut lo: i64 = 0;
    let mut hi: i64 = 3_037_000_500;
    assert(n < 3_037_000_500 * 3_037_000_500);
    while hi - lo > 1
        invariant
            0 <= lo < hi <= 3_037_000_500,
            lo * lo <= n < hi * hi,
        decreases hi - lo,
    {
        let mid: i64 = lo + (hi - lo) / 2;
        proof {
            lemma_product_bound(mid as int, mid as int, 3_037_000_499, 3_037_000_499);
        }
        if mid * mid <= n {
            lo = mid;
        } else {
            hi = mid;
        }
    }
    proof {
        lemma_floor_sqrt_unique(n as int, lo as int);
    }
    lo
}

/// The integer square root of `n`, rounded up.
pub fn isqrt_up(n: i64) -> (r: i64)
    requires
        0 <= n,
    ensures
        r == ceil_sqrt(n as int),
        is_ceil_sqrt(n as int, r as int),
        r <= 3_037_000_500,
{
    let root: i64 = isqrt(n);
    let r: i64 = if root * root == n {
        root
    } else {
        root + 1
    };
    proof {
        assert(is_ceil_sqrt(n as int, r as int)) by (nonlinear_arith)
            requires
                is_floor_sqrt(n as int, root as int),
                r == if root * root == n { root as int } else { root + 1 },
        {
        }
        lemma_ceil_sqrt_unique(n as int, r as int);
    }
    r
}

} // verus!
