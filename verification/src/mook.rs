//! Enemy units.

use vstd::prelude::*;
use crate::trig::{is_angle, turn, turned};
use crate::units::{clamp, DAMAGE, FULL_HEALTH, ONE, STEP};
use crate::vector::{heading, heading_of, wrap, Vec2};

verus! {

/// The smallest tier: a mook of this level is removed when destroyed.
pub const MIN_LEVEL: u32 = 1;

/// The largest tier, and the one a new mook starts at.
pub const DEFAULT_LEVEL: u32 = 5;

/// Degrees by which a mook spins each tick.
pub const SPIN_STEP: u32 = 6;

/// Speed at which the two halves of a destroyed mook are pushed apart.
pub const SPLIT_KICK: i64 = 100_000;

/// Half of one unit: the factor that scales a sampled velocity down.
pub const HALF: i64 = 500_000;

/// An enemy unit. `level` is its size tier; each tier is twice as large as
/// the one below.
#[derive(Clone, Copy, Debug, PartialEq, Eq, Structural)]
pub struct Mook {
    pub pos: Vec2,
    pub vel: Vec2,
    pub orient: u32,
    pub health: i64,
    pub level: u32,
}

/// Health left after `hits` bullets, each taking `DAMAGE`: never below zero.
pub open spec fn health_after(health: int, hits: nat) -> int {
    if hits * DAMAGE >= health {
        0
    } else {
        health - hits * DAMAGE
    }
}

/// A sample of 32 random bits as a fraction of one unit, in `0 .. ONE`.
pub open spec fn unit_of_bits(bits: int) -> int {
    bits * ONE / 0x1_0000_0000
}

/// A sample of 32 random bits as a coordinate of the visible field, in
/// `-ONE .. ONE`.
pub open spec fn coord_of_bits(bits: int) -> int {
    2 * unit_of_bits(bits) - ONE
}

/// A sample of 32 random bits as an angle, in `0 .. 360`.
pub open spec fn angle_of_bits(bits: int) -> int {
    unit_of_bits(bits) * 360 / (ONE as int)
}

/// The vector whose coordinates two samples give.
pub open spec fn vec_of_bits(a: u32, b: u32) -> Vec2 {
    Vec2 { x: coord_of_bits(a as int) as i64, y: coord_of_bits(b as int) as i64 }
}

impl Mook {
    /// Whether the mook is a valid one: representable position and
    /// velocity, a normalised facing, a health between empty and full, and
    /// a level between the smallest and the largest tier.
    pub open spec fn wf(self) -> bool {
        &&& self.pos.bounded()
        &&& self.vel.bounded()
        &&& is_angle(self.orient as int)
        &&& 0 <= self.health <= FULL_HEALTH
        &&& MIN_LEVEL <= self.level <= DEFAULT_LEVEL
    }

    /// The mook one tick later: moved along its velocity, spun by
    /// `SPIN_STEP`, then bounced at the field's edge. Health is untouched.
    pub open spec fn stepped(self) -> Mook {
        Mook {
            pos: self.pos.spec_plus(self.vel.spec_scaled(STEP as int)).spec_wrapped(),
            orient: turned(self.orient as int, SPIN_STEP as int) as u32,
            ..self
        }
    }

    /// The mook after `hits` bullets struck it.
    pub open spec fn damaged(self, hits: nat) -> Mook {
        Mook { health: health_after(self.health as int, hits) as i64, ..self }
    }

    /// Whether the mook has no health left.
    pub open spec fn destroyed(self) -> bool {
        self.health <= 0
    }

    /// Whether the mook breaks in two when destroyed, rather than vanish.
    pub open spec fn splits(self) -> bool {
        self.level > MIN_LEVEL
    }

    /// One half of a destroyed mook: at the parent's position, one level
    /// below, at full health, with the parent's velocity pushed by
    /// `SPLIT_KICK` along the parent's facing (`first`) or against it.
    pub open spec fn fragment(self, first: bool) -> Mook {
        let kick = heading(self.orient as int).spec_scaled(
            if first {
                SPLIT_KICK as int
            } else {
                -SPLIT_KICK
            },
        );
        Mook {
            pos: self.pos,
            vel: self.vel.spec_plus(kick),
            orient: self.orient,
            health: FULL_HEALTH,
            level: (self.level - 1) as u32,
        }
    }

    /// The mook that five samples of random bits describe: a position in
    /// the visible field, a velocity of at most half a unit per axis, and
    /// any facing.
    pub open spec fn of_samples(px: u32, py: u32, vx: u32, vy: u32, facing: u32) -> Mook {
        Mook {
            pos: vec_of_bits(px, py),
            vel: vec_of_bits(vx, vy).spec_scaled(HALF as int),
            orient: angle_of_bits(facing as int) as u32,
            health: FULL_HEALTH,
            level: DEFAULT_LEVEL,
        }
    }

    /// The mook in model units: the unit square about the centre, drawn as
    /// a closed line.
    pub open spec fn square() -> Seq<Vec2> {
        seq![
            Vec2 { x: -500_000i64, y: -500_000i64 },
            Vec2 { x: -500_000i64, y: 500_000i64 },
            Vec2 { x: 500_000i64, y: 500_000i64 },
            Vec2 { x: 500_000i64, y: -500_000i64 },
        ]
    }

    /// The corners of the mook, to draw it at the size of its level.
    pub fn vertices() -> (outline: Vec<Vec2>)
        ensures
            outline@ == Self::square(),
    {
        let outline: Vec<Vec2> = vec![
            Vec2 { x: -500_000, y: -500_000 },
            Vec2 { x: -500_000, y: 500_000 },
            Vec2 { x: 500_000, y: 500_000 },
            Vec2 { x: 500_000, y: -500_000 },
        ];
        assert(outline@ =~= Self::square());
        outline
    }

    /// A mook of the default level at full health.
    pub fn new(pos: Vec2, vel: Vec2, orient: u32) -> (m: Mook)
        ensures
            m == (Mook { pos, vel, orient, health: FULL_HEALTH, level: DEFAULT_LEVEL }),
    {
        Mook { pos, vel, orient, health: FULL_HEALTH, level: DEFAULT_LEVEL }
    }

    /// Builds the mook that five samples of random bits describe.
    pub fn from_samples(px: u32, py: u32, vx: u32, vy: u32, facing: u32) -> (m: Mook)
        ensures
            m == Mook::of_samples(px, py, vx, vy, facing),
            m.wf(),
            -ONE <= m.pos.x < ONE,
            -ONE <= m.pos.y < ONE,
            -HALF <= m.vel.x <= HALF,
            -HALF <= m.vel.y <= HALF,
    {
        let pos: Vec2 = vec_from_samples(px, py);
        let vel: Vec2 = vec_from_samples(vx, vy).scaled(HALF);
        proof {
            let raw = vec_of_bits(vx, vy);
            lemma_half(raw.x as int);
            lemma_half(raw.y as int);
        }
        Mook::new(pos, vel, angle_from_sample(facing))
    }

    /// A mook at a random place in the visible field, drifting at random
    /// and facing anywhere.
    pub fn random() -> (m: Mook)
        ensures
            exists|px: u32, py: u32, vx: u32, vy: u32, facing: u32|
                m == Mook::of_samples(px, py, vx, vy, facing),
            m.wf(),
            m.health == FULL_HEALTH,
            m.level == DEFAULT_LEVEL,
            -ONE <= m.pos.x < ONE,
            -ONE <= m.pos.y < ONE,
            -HALF <= m.vel.x <= HALF,
            -HALF <= m.vel.y <= HALF,
    {
        let px: u32 = random_bits();
        let py: u32 = random_bits();
        let vx: u32 = random_bits();
        let vy: u32 = random_bits();
        let facing: u32 = random_bits();
        Mook::from_samples(px, py, vx, vy, facing)
    }

    /// Whether the mook is a valid one.
    pub fn is_wf(&self) -> (valid: bool)
        ensures
            valid == self.wf(),
    {
        self.pos.is_bounded() && self.vel.is_bounded() && self.orient < 360 && 0 <= self.health
            && self.health <= FULL_HEALTH && MIN_LEVEL <= self.level && self.level
            <= DEFAULT_LEVEL
    }

    /// Advances the mook by one tick.
    pub fn step(&mut self)
        requires
            old(self).wf(),
        ensures
            *final(self) == old(self).stepped(),
            final(self).wf(),
    {
        let mut pos: Vec2 = self.pos.plus(self.vel.scaled(STEP));
        wrap(&mut pos);
        self.pos = pos;
        self.orient = turn(self.orient, SPIN_STEP);
    }

    /// Takes the damage of one bullet.
    pub fn take_hit(&mut self)
        requires
            old(self).wf(),
        ensures
            *final(self) == old(self).damaged(1),
            final(self).wf(),
    {
        if self.health <= DAMAGE {
            self.health = 0;
        } else {
            self.health = self.health - DAMAGE;
        }
    }

    /// Whether the mook has no health left.
    pub fn is_destroyed(&self) -> (gone: bool)
        ensures
            gone == self.destroyed(),
    {
        self.health <= 0
    }

    /// The two halves the mook breaks into, or `None` for a mook of the
    /// smallest tier, which leaves nothing behind.
    pub fn explode(&self) -> (halves: Option<(Mook, Mook)>)
        requires
            self.wf(),
        ensures
            self.splits() ==> halves == Some((self.fragment(true), self.fragment(false))),
            !self.splits() ==> halves is None,
            halves matches Some(pair) ==> pair.0.wf() && pair.1.wf(),
    {
        if self.level <= MIN_LEVEL {
            return None;
        }
        let along: Vec2 = heading_of(self.orient);
        let first: Mook = Mook {
            pos: self.pos,
            vel: self.vel.plus(along.scaled(SPLIT_KICK)),
            orient: self.orient,
            health: FULL_HEALTH,
            level: self.level - 1,
        };
        let second: Mook = Mook {
            pos: self.pos,
            vel: self.vel.plus(along.scaled(-SPLIT_KICK)),
            orient: self.orient,
            health: FULL_HEALTH,
            level: self.level - 1,
        };
        Some((first, second))
    }
}

/// Taking hits one after another adds them up.
pub proof fn lemma_health_after_one_more(health: int, hits: nat)
    requires
        0 <= health,
    ensures
        health_after(health_after(health, hits), 1) == health_after(health, hits + 1),
        0 <= health_after(health, hits) <= health,
{
    assert(hits * DAMAGE == hits * 500_000);
    assert((hits + 1) * DAMAGE == hits * 500_000 + 500_000);
    assert(1 * DAMAGE == 500_000);
}

/// Half of a coordinate of the visible field is at most half a unit.
proof fn lemma_half(c: int)
    requires
        -ONE <= c <= ONE,
    ensures
        -HALF <= clamp(crate::units::mul_fixed(c, HALF as int)) <= HALF,
{
    assert(c * HALF == c * 500_000);
    if c < 0 {
        assert(-(c * HALF) == (-c) * 500_000);
    }
}

/// A sample of 32 random bits as a fraction of one unit.
fn unit_from_sample(bits: u32) -> (u: i64)
    ensures
        u == unit_of_bits(bits as int),
        0 <= u < ONE,
{
    let wide: u64 = bits as u64 * 1_000_000;
    (wide / 0x1_0000_0000) as i64
}

/// A sample of 32 random bits as an angle.
fn angle_from_sample(bits: u32) -> (deg: u32)
    ensures
        deg == angle_of_bits(bits as int),
        is_angle(deg as int),
{
    let u: i64 = unit_from_sample(bits);
    ((u * 360) / ONE) as u32
}

/// The vector of the visible field whose coordinates two samples give.
pub fn vec_from_samples(a: u32, b: u32) -> (v: Vec2)
    ensures
        v == vec_of_bits(a, b),
        -ONE <= v.x < ONE,
        -ONE <= v.y < ONE,
        v.bounded(),
{
    Vec2 { x: 2 * unit_from_sample(a) - ONE, y: 2 * unit_from_sample(b) - ONE }
}

/// A random vector of the visible field.
pub fn random_vec() -> (v: Vec2)
    ensures
        exists|a: u32, b: u32| v == vec_of_bits(a, b),
        -ONE <= v.x < ONE,
        -ONE <= v.y < ONE,
        v.bounded(),
{
    let a: u32 = random_bits();
    let b: u32 = random_bits();
    vec_from_samples(a, b)
}

/// Draws 32 bits from `rand::random`, the thread-local generator of the
/// `rand` crate. Nothing is claimed of the value: any `u32` may come back,
/// and two calls need not agree. The generator panics only if the operating
/// system's source of randomness fails, when it is first seeded or when it
/// is seeded anew after long use; no argument decides that.
#[verifier::external_body]
fn random_bits() -> (bits: u32) {
    rand::random::<u32>()
}

} // verus!
