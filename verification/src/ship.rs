//! The player's ship.

use vstd::prelude::*;
use crate::bullet::Bullet;
use crate::trig::{is_angle, turn, turned};
use crate::units::{in_range, ACCEL, FULL_HEALTH, MUZZLE_SPEED, SPEED_CAP_SQ, STEP};
use crate::vector::{heading, lemma_heading_is_turned_axis, wrap, Vec2};

verus! {

/// Size at which the ship is drawn: the factor from model units to field
/// units.
pub const SHIP_SCALE: i64 = 100_000;

/// Degrees by which one tick of turning rotates the ship.
pub const TURN_STEP: u32 = 10;

/// The ship: where it is, how it drifts, which way it faces, and its health.
/// Facing and drift are independent: turning changes the direction of later
/// thrust, never the velocity.
#[derive(Clone, Copy, Debug, PartialEq, Eq, Structural)]
pub struct Ship {
    pub pos: Vec2,
    pub vel: Vec2,
    pub orient: u32,
    pub health: i64,
}

impl Ship {
    /// Whether the ship is a valid one: representable position, a speed
    /// within the cap, a normalised facing and a health between empty and
    /// full.
    pub open spec fn wf(self) -> bool {
        &&& self.pos.bounded()
        &&& self.vel.bounded()
        &&& self.vel.spec_sqnorm() <= SPEED_CAP_SQ
        &&& is_angle(self.orient as int)
        &&& 0 <= self.health <= FULL_HEALTH
    }

    /// The ship one tick later: moved along its velocity, then bounced at
    /// the field's edge.
    pub open spec fn stepped(self) -> Ship {
        Ship {
            pos: self.pos.spec_plus(self.vel.spec_scaled(STEP as int)).spec_wrapped(),
            ..self
        }
    }

    /// The ship after a thrust of `accel` along its facing. A resulting
    /// speed above the cap is cut back to the cap, in the direction of the
    /// new velocity.
    pub open spec fn accelerated(self, accel: int) -> Ship {
        let pushed = self.vel.spec_plus(heading(self.orient as int).spec_scaled(accel));
        Ship {
            vel: if pushed.spec_sqnorm() > SPEED_CAP_SQ {
                pushed.spec_normalized()
            } else {
                pushed
            },
            ..self
        }
    }

    /// The ship turned by `by` degrees counter-clockwise.
    pub open spec fn rotated(self, by: int) -> Ship {
        Ship { orient: turned(self.orient as int, by) as u32, ..self }
    }

    /// The bullet the ship fires: at the ship's position, flying along its
    /// facing at muzzle speed.
    pub open spec fn fired(self) -> Bullet {
        Bullet {
            pos: self.pos,
            vel: heading(self.orient as int).spec_scaled(MUZZLE_SPEED as int),
        }
    }

    /// The hull in model units, nose along the y axis: three triangles on
    /// one base, drawn as a list of triangles.
    pub open spec fn hull() -> Seq<Vec2> {
        seq![
            Vec2 { x: -300_000i64, y: -300_000i64 },
            Vec2 { x: 0i64, y: 500_000i64 },
            Vec2 { x: 300_000i64, y: -300_000i64 },
            Vec2 { x: -300_000i64, y: -300_000i64 },
            Vec2 { x: 0i64, y: 250_000i64 },
            Vec2 { x: 300_000i64, y: -300_000i64 },
            Vec2 { x: -300_000i64, y: -300_000i64 },
            Vec2 { x: 0i64, y: 0i64 },
            Vec2 { x: 300_000i64, y: -300_000i64 },
        ]
    }

    /// The corners of the hull, to draw it at `SHIP_SCALE`.
    pub fn vertices() -> (outline: Vec<Vec2>)
        ensures
            outline@ == Self::hull(),
    {
        let outline: Vec<Vec2> = vec![
            Vec2 { x: -300_000, y: -300_000 },
            Vec2 { x: 0, y: 500_000 },
            Vec2 { x: 300_000, y: -300_000 },
            Vec2 { x: -300_000, y: -300_000 },
            Vec2 { x: 0, y: 250_000 },
            Vec2 { x: 300_000, y: -300_000 },
            Vec2 { x: -300_000, y: -300_000 },
            Vec2 { x: 0, y: 0 },
            Vec2 { x: 300_000, y: -300_000 },
        ];
        assert(outline@ =~= Self::hull());
        outline
    }

    /// The thrust flame in model units: two triangles behind the hull.
    pub open spec fn flame() -> Seq<Vec2> {
        seq![
            Vec2 { x: -300_000i64, y: -300_000i64 },
            Vec2 { x: -150_000i64, y: -450_000i64 },
            Vec2 { x: 0i64, y: -300_000i64 },
            Vec2 { x: 0i64, y: -300_000i64 },
            Vec2 { x: 150_000i64, y: -450_000i64 },
            Vec2 { x: 300_000i64, y: -300_000i64 },
        ]
    }

    /// The corners of the thrust flame, to draw it at `SHIP_SCALE` while the
    /// ship thrusts.
    pub fn thrust_vertices() -> (outline: Vec<Vec2>)
        ensures
            outline@ == Self::flame(),
    {
        let outline: Vec<Vec2> = vec![
            Vec2 { x: -300_000, y: -300_000 },
            Vec2 { x: -150_000, y: -450_000 },
            Vec2 { x: 0, y: -300_000 },
            Vec2 { x: 0, y: -300_000 },
            Vec2 { x: 150_000, y: -450_000 },
            Vec2 { x: 300_000, y: -300_000 },
        ];
        assert(outline@ =~= Self::flame());
        outline
    }

    /// A ship at rest at the origin, facing along the x axis, at full health.
    pub fn new() -> (s: Ship)
        ensures
            s == (Ship {
                pos: Vec2 { x: 0, y: 0 },
                vel: Vec2 { x: 0, y: 0 },
                orient: 0,
                health: FULL_HEALTH,
            }),
            s.wf(),
    {
        Ship { pos: Vec2::zero(), vel: Vec2::zero(), orient: 0, health: FULL_HEALTH }
    }

    /// Whether the ship is a valid one.
    pub fn is_wf(&self) -> (valid: bool)
        ensures
            valid == self.wf(),
    {
        self.pos.is_bounded() && self.vel.is_bounded() && self.vel.sqnorm() <= SPEED_CAP_SQ
            && self.orient < 360 && 0 <= self.health && self.health <= FULL_HEALTH
    }

    /// Advances the ship by one tick.
    pub fn step(&mut self)
        requires
            old(self).wf(),
        ensures
            *final(self) == old(self).stepped(),
            final(self).wf(),
    {
        let mut pos: Vec2 = self.pos.plus(self.vel.scaled(STEP));
        wrap(&mut pos);
        self.pos = pos;
    }

    /// Pushes the ship along its facing by `accel`, backwards if negative,
    /// and caps the resulting speed.
    pub fn accelerate(&mut self, accel: i64)
        requires
            old(self).wf(),
            in_range(accel as int),
        ensures
            *final(self) == old(self).accelerated(accel as int),
            final(self).vel.spec_sqnorm() <= SPEED_CAP_SQ,
            final(self).wf(),
    {
        let pushed: Vec2 = self.vel.plus(self.orient_vec().scaled(accel));
        if pushed.sqnorm() > SPEED_CAP_SQ {
            self.vel = pushed.normalized();
        } else {
            self.vel = pushed;
        }
    }

    /// One tick of forward thrust.
    pub fn accel(&mut self)
        requires
            old(self).wf(),
        ensures
            *final(self) == old(self).accelerated(ACCEL as int),
            final(self).wf(),
    {
        self.accelerate(ACCEL)
    }

    /// One tick of reverse thrust.
    pub fn decel(&mut self)
        requires
            old(self).wf(),
        ensures
            *final(self) == old(self).accelerated(-ACCEL),
            final(self).wf(),
    {
        self.accelerate(-ACCEL)
    }

    /// One tick of turning counter-clockwise.
    pub fn turn_left(&mut self)
        requires
            old(self).wf(),
        ensures
            *final(self) == old(self).rotated(TURN_STEP as int),
            final(self).wf(),
    {
        self.orient = turn(self.orient, TURN_STEP);
    }

    /// One tick of turning clockwise.
    pub fn turn_right(&mut self)
        requires
            old(self).wf(),
        ensures
            *final(self) == old(self).rotated(360 - TURN_STEP),
            final(self).wf(),
    {
        self.orient = turn(self.orient, 360 - TURN_STEP);
    }

    /// Fires a bullet. The ship itself does not change.
    pub fn fire(&self) -> (b: Bullet)
        requires
            self.wf(),
        ensures
            b == self.fired(),
            b.wf(),
    {
        Bullet::new(self.pos, self.orient_vec().scaled(MUZZLE_SPEED))
    }

    /// The unit vector along the ship's facing: the x axis turned by the
    /// ship's orientation.
    pub fn orient_vec(&self) -> (v: Vec2)
        requires
            is_angle(self.orient as int),
        ensures
            v == heading(self.orient as int),
            v.bounded(),
    {
        proof {
            lemma_heading_is_turned_axis(self.orient as int);
        }
        Vec2::x_axis().rotated(self.orient)
    }
}

impl Default for Ship {
    /// The ship that `Ship::new` returns.
    fn default() -> (s: Ship)
        ensures
            s == (Ship {
                pos: Vec2 { x: 0, y: 0 },
                vel: Vec2 { x: 0, y: 0 },
                orient: 0,
                health: FULL_HEALTH,
            }),
    {
        Ship::new()
    }
}

} // verus!
