//! Projectiles.

use vstd::prelude::*;
use crate::units::{ONE, STEP, SWEEP_LIMIT_SQ};
use crate::vector::Vec2;

verus! {

/// Size at which a bullet is drawn: the factor from model units to field
/// units.
pub const BULLET_SCALE: i64 = 10_000;

/// A projectile in flight. It keeps the velocity it was fired with and is
/// swept once it has left the field.
#[derive(Clone, Copy, Debug, PartialEq, Eq, Structural)]
pub struct Bullet {
    pub pos: Vec2,
    pub vel: Vec2,
}

impl Bullet {
    /// Whether position and velocity are representable.
    pub open spec fn wf(self) -> bool {
        self.pos.bounded() && self.vel.bounded()
    }

    /// The bullet one tick later: moved along its velocity, never wrapped.
    pub open spec fn stepped(self) -> Bullet {
        Bullet { pos: self.pos.spec_plus(self.vel.spec_scaled(STEP as int)), vel: self.vel }
    }

    /// Whether the bullet has left the field: its squared distance from the
    /// origin exceeds `SWEEP_LIMIT_SQ`.
    pub open spec fn expired(self) -> bool {
        self.pos.spec_sqnorm() > SWEEP_LIMIT_SQ
    }

    /// The bullet in model units: a thin rectangle along the y axis, drawn
    /// as a closed line.
    pub open spec fn dash() -> Seq<Vec2> {
        seq![
            Vec2 { x: -100_000i64, y: -1_000_000i64 },
            Vec2 { x: -100_000i64, y: 1_000_000i64 },
            Vec2 { x: 100_000i64, y: 1_000_000i64 },
            Vec2 { x: 100_000i64, y: -1_000_000i64 },
        ]
    }

    /// The corners of the bullet, to draw it at `BULLET_SCALE`.
    pub fn vertices() -> (outline: Vec<Vec2>)
        ensures
            outline@ == Self::dash(),
    {
        let outline: Vec<Vec2> = vec![
            Vec2 { x: -100_000, y: -1_000_000 },
            Vec2 { x: -100_000, y: 1_000_000 },
            Vec2 { x: 100_000, y: 1_000_000 },
            Vec2 { x: 100_000, y: -1_000_000 },
        ];
        assert(outline@ =~= Self::dash());
        outline
    }

    /// A bullet at `pos` flying with `vel`.
    pub fn new(pos: Vec2, vel: Vec2) -> (b: Bullet)
        ensures
            b == (Bullet { pos, vel }),
    {
        Bullet { pos, vel }
    }

    /// Whether position and velocity are representable.
    pub fn is_wf(&self) -> (valid: bool)
        ensures
            valid == self.wf(),
    {
        self.pos.is_bounded() && self.vel.is_bounded()
    }

    /// Advances the bullet by one tick.
    pub fn step(&mut self)
        requires
            old(self).wf(),
        ensures
            *final(self) == old(self).stepped(),
            final(self).wf(),
    {
        self.pos = self.pos.plus(self.vel.scaled(STEP));
    }

    /// The angle between the x axis and the bullet's velocity, in whole
    /// degrees from zero to a half turn: the degree whose direction is
    /// nearest to the velocity's. For a bullet as the ship fired it, that is
    /// the ship's facing, counted whichever way round. It is derived, not
    /// stored, and serves to draw the bullet.
    pub fn orient(&self) -> (deg: u32)
        requires
            self.wf(),
        ensures
            deg == (Vec2 { x: ONE, y: 0 }).spec_angle_between(self.vel),
            deg <= 180,
    {
        Vec2::x_axis().angle_between(self.vel)
    }

    /// Whether the bullet has left the field.
    pub fn is_expired(&self) -> (gone: bool)
        requires
            self.wf(),
        ensures
            gone == self.expired(),
    {
        self.pos.sqnorm() > SWEEP_LIMIT_SQ
    }
}

} // verus!
