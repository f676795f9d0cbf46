//! The pairwise collision test between a mook and a bullet.
//!
//! A mook is a square whose side grows with its level; a bullet counts as a
//! small disc. The test has two phases. The broad phase compares the
//! distance of the two centres with the sum of their bounding radii and
//! rejects most pairs. The exact phase, run on the survivors, asks whether
//! the bullet's centre lies in the disc inscribed in the mook's square,
//! which is inside the square however the mook is turned. `collides` is the
//! only entry the board uses.

use vstd::prelude::*;
use crate::bullet::Bullet;
use crate::mook::{Mook, DEFAULT_LEVEL, MIN_LEVEL};
use crate::units::{lemma_product_bound, COORD_MAX};
use crate::vector::Vec2;

verus! {

/// Side of a mook of the smallest tier.
pub const UNIT_SIDE: i64 = 15_625;

/// Radius of the circle around a mook of the smallest tier: half the
/// diagonal of its square, rounded up.
pub const UNIT_REACH: i64 = 11_049;

/// Radius of the circle around a bullet.
pub const BULLET_REACH: i64 = 10_050;

/// Two to the power `level - 1`: how many times a mook of tier `level` is
/// larger than one of the smallest tier.
pub open spec fn growth(level: int) -> int {
    if level <= 1 {
        1
    } else if level == 2 {
        2
    } else if level == 3 {
        4
    } else if level == 4 {
        8
    } else {
        16
    }
}

/// Side of the square of a mook of tier `level`.
pub open spec fn side(level: int) -> int {
    UNIT_SIDE * growth(level)
}

/// Radius of the bounding circle of a mook of tier `level`.
pub open spec fn reach(level: int) -> int {
    UNIT_REACH * growth(level)
}

/// Squared distance between two points.
pub open spec fn sqdist(a: Vec2, b: Vec2) -> int {
    (a.x - b.x) * (a.x - b.x) + (a.y - b.y) * (a.y - b.y)
}

/// The broad phase: the bounding circles of mook and bullet touch or
/// overlap.
pub open spec fn near(mook: Mook, bullet: Bullet) -> bool {
    sqdist(mook.pos, bullet.pos) <= (reach(mook.level as int) + BULLET_REACH) * (reach(
        mook.level as int,
    ) + BULLET_REACH)
}

/// The exact phase: the bullet's centre is no further from the mook's than
/// half the side of its square.
pub open spec fn exact(mook: Mook, bullet: Bullet) -> bool {
    4 * sqdist(mook.pos, bullet.pos) <= side(mook.level as int) * side(mook.level as int)
}

/// Whether the bullet hits the mook: both phases pass.
pub open spec fn collides(mook: Mook, bullet: Bullet) -> bool {
    near(mook, bullet) && exact(mook, bullet)
}

/// A mook one tier down has half the side and half the reach.
pub proof fn law_each_level_down_halves_the_mook(level: int)
    requires
        MIN_LEVEL < level <= DEFAULT_LEVEL,
    ensures
        2 * side(level - 1) == side(level),
        2 * reach(level - 1) == reach(level),
{
}

/// The bounding circle of a mook contains its square: the reach is at
/// least half the diagonal.
pub proof fn law_bounding_circle_contains_the_square(level: int)
    requires
        MIN_LEVEL <= level <= DEFAULT_LEVEL,
    ensures
        2 * reach(level) * reach(level) >= side(level) * side(level),
{
    let g = growth(level);
    assert(2 * (UNIT_REACH * g) * (UNIT_REACH * g) >= (UNIT_SIDE * g) * (UNIT_SIDE * g))
        by (nonlinear_arith)
        requires
            g == 1 || g == 2 || g == 4 || g == 8 || g == 16,
    {
    }
}

/// The broad phase never rejects a pair that the exact phase would accept.
pub proof fn law_broad_phase_rejects_no_hit(mook: Mook, bullet: Bullet)
    requires
        MIN_LEVEL <= mook.level <= DEFAULT_LEVEL,
        exact(mook, bullet),
    ensures
        near(mook, bullet),
{
    let g = growth(mook.level as int);
    let d = sqdist(mook.pos, bullet.pos);
    assert(d <= (UNIT_REACH * g + BULLET_REACH) * (UNIT_REACH * g + BULLET_REACH))
        by (nonlinear_arith)
        requires
            g == 1 || g == 2 || g == 4 || g == 8 || g == 16,
            4 * d <= (UNIT_SIDE * g) * (UNIT_SIDE * g),
    {
    }
}

/// How many times a mook of tier `level` is larger than the smallest.
fn growth_of(level: u32) -> (g: i64)
    ensures
        g == growth(level as int),
        1 <= g <= 16,
{
    if level <= 1 {
        1
    } else if level == 2 {
        2
    } else if level == 3 {
        4
    } else if level == 4 {
        8
    } else {
        16
    }
}

/// Side of the square of a mook of tier `level`: the size at which it is
/// drawn, as the factor from model units to field units.
pub fn side_of(level: u32) -> (s: i64)
    ensures
        s == side(level as int),
        UNIT_SIDE <= s <= 16 * UNIT_SIDE,
{
    UNIT_SIDE * growth_of(level)
}

/// Radius of the bounding circle of a mook of tier `level`.
pub fn reach_of(level: u32) -> (r: i64)
    ensures
        r == reach(level as int),
        UNIT_REACH <= r <= 16 * UNIT_REACH,
{
    UNIT_REACH * growth_of(level)
}

/// Squared distance between two representable points.
pub fn sqdist_of(a: Vec2, b: Vec2) -> (d: i64)
    requires
        a.bounded(),
        b.bounded(),
    ensures
        d == sqdist(a, b),
        0 <= d <= 8 * COORD_MAX * COORD_MAX,
{
    let dx: i64 = a.x - b.x;
    let dy: i64 = a.y - b.y;
    proof {
        lemma_product_bound(dx as int, dx as int, 2 * COORD_MAX, 2 * COORD_MAX);
        lemma_product_bound(dy as int, dy as int, 2 * COORD_MAX, 2 * COORD_MAX);
        assert(dx * dx >= 0 && dy * dy >= 0) by (nonlinear_arith);
    }
    dx * dx + dy * dy
}

/// The broad phase of the collision test.
pub fn near_detect(mook: &Mook, bullet: &Bullet) -> (hit: bool)
    requires
        mook.pos.bounded(),
        bullet.pos.bounded(),
    ensures
        hit == near(*mook, *bullet),
{
    let sum: i64 = reach_of(mook.level) + BULLET_REACH;
    proof {
        lemma_product_bound(sum as int, sum as int, 200_000, 200_000);
    }
    sqdist_of(mook.pos, bullet.pos) <= sum * sum
}

/// The exact phase of the collision test.
pub fn exact_detect(mook: &Mook, bullet: &Bullet) -> (hit: bool)
    requires
        mook.pos.bounded(),
        bullet.pos.bounded(),
    ensures
        hit == exact(*mook, *bullet),
{
    let s: i64 = side_of(mook.level);
    proof {
        lemma_product_bound(s as int, s as int, 250_000, 250_000);
    }
    4 * sqdist_of(mook.pos, bullet.pos) <= s * s
}

/// Whether the bullet hits the mook. The exact phase runs only on pairs
/// that pass the broad phase.
pub fn hits(mook: &Mook, bullet: &Bullet) -> (hit: bool)
    requires
        mook.pos.bounded(),
        bullet.pos.bounded(),
    ensures
        hit == collides(*mook, *bullet),
{
    near_detect(mook, bullet) && exact_detect(mook, bullet)
}

} // verus!
