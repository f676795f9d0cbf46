//! What holds of the simulation as a whole.
//!
//! Each proof function here states one law over the same mathematical
//! values that the contracts of the executable functions speak of.

use vstd::prelude::*;
use crate::bullet::Bullet;
use crate::collision::{collides, near};
use crate::events::{intent_if_held, intent_of, intents_of, Intent, Key};
use crate::game::GameState;
use crate::mook::Mook;
use crate::ship::{Ship, TURN_STEP};
use crate::state::{
    hitters, lemma_advanced_wf, lemma_applied_all_none, lemma_applied_all_push,
    lemma_breaking_lists, lemma_collided_keeps, lemma_split_by_none, lemma_swept_wf, strikes,
    BoardState,
};
use crate::trig::{
    alignment, cos_micro, is_angle, lemma_heading_hundredth, lemma_mirror,
    lemma_nearest_is_the_best, lemma_own_heading_fits_best, lemma_quarter_sine_bounds,
    lemma_unit_bounds, lemma_unit_length, sin_micro, turned, UNIT_SLACK,
};
use crate::units::{
    ceil_sqrt, div_toward_zero, in_range, lemma_product_bound, lemma_sqrt_exists,
    lemma_whole_units, mul_fixed, ACCEL, COORD_MAX, DAMAGE, MUZZLE_SPEED, ONE, SPEED_CAP_SQ, STEP,
    SWEEP_LIMIT_SQ, WRAP_LIMIT,
};
use crate::vector::{heading, lemma_normalized_capped, lemma_normalized_nearly_unit, Vec2};

verus! {

/// The bounce at the field's edge flips the sign of each component that
/// lies beyond `WRAP_LIMIT` in magnitude and leaves the others untouched.
pub proof fn law_wrap_flips_outside_only(v: Vec2)
    requires
        v.bounded(),
    ensures
        v.spec_wrapped().bounded(),
        v.x > WRAP_LIMIT || v.x < -WRAP_LIMIT ==> v.spec_wrapped().x == -v.x,
        -WRAP_LIMIT <= v.x <= WRAP_LIMIT ==> v.spec_wrapped().x == v.x,
        v.y > WRAP_LIMIT || v.y < -WRAP_LIMIT ==> v.spec_wrapped().y == -v.y,
        -WRAP_LIMIT <= v.y <= WRAP_LIMIT ==> v.spec_wrapped().y == v.y,
{
}

/// The bounce is its own inverse: bounced twice, a position is back where
/// it was. It is a reflection, not a shift by the width of the field.
pub proof fn law_wrap_undoes_itself(v: Vec2)
    requires
        v.bounded(),
    ensures
        v.spec_wrapped().spec_wrapped() == v,
{
}

/// Saturation plays no part in the field: away from the limit of the
/// representable coordinates, by two units or more, one tick moves a
/// position by exactly the velocity times `STEP`, rounded toward zero.
pub proof fn law_motion_is_exact_inside(pos: Vec2, vel: Vec2)
    requires
        pos.bounded(),
        vel.bounded(),
        -COORD_MAX + 2 * ONE <= pos.x <= COORD_MAX - 2 * ONE,
        -COORD_MAX + 2 * ONE <= pos.y <= COORD_MAX - 2 * ONE,
    ensures
        pos.spec_plus(vel.spec_scaled(STEP as int)).x == pos.x + mul_fixed(
            vel.x as int,
            STEP as int,
        ),
        pos.spec_plus(vel.spec_scaled(STEP as int)).y == pos.y + mul_fixed(
            vel.y as int,
            STEP as int,
        ),
        -2 * ONE <= mul_fixed(vel.x as int, STEP as int) <= 2 * ONE,
        -2 * ONE <= mul_fixed(vel.y as int, STEP as int) <= 2 * ONE,
{
    assert(vel.x * STEP == vel.x * 20_000);
    assert(vel.y * STEP == vel.y * 20_000);
}

/// A bullet leaves the ship at the ship's position, along the ship's
/// facing, at muzzle speed to within four millionths.
pub proof fn law_bullet_leaves_at_muzzle_speed(ship: Ship)
    requires
        ship.wf(),
    ensures
        ship.fired().pos == ship.pos,
        ship.fired().vel.x == 2 * cos_micro(ship.orient as int),
        ship.fired().vel.y == 2 * sin_micro(ship.orient as int),
        -4 * UNIT_SLACK < ship.fired().vel.spec_sqnorm() - MUZZLE_SPEED * MUZZLE_SPEED < 4
            * UNIT_SLACK,
        ship.fired().wf(),
{
    let c = cos_micro(ship.orient as int);
    let s = sin_micro(ship.orient as int);
    lemma_unit_bounds(ship.orient as int);
    lemma_unit_length(ship.orient as int);
    assert(c * MUZZLE_SPEED == (2 * c) * ONE) by (nonlinear_arith)
        requires
            MUZZLE_SPEED == 2 * ONE,
    {
    }
    assert(s * MUZZLE_SPEED == (2 * s) * ONE) by (nonlinear_arith)
        requires
            MUZZLE_SPEED == 2 * ONE,
    {
    }
    lemma_whole_units(2 * c);
    lemma_whole_units(2 * s);
    assert((2 * c) * (2 * c) + (2 * s) * (2 * s) == 4 * (c * c + s * s)) by (nonlinear_arith);
    assert(MUZZLE_SPEED * MUZZLE_SPEED == 4 * (ONE * ONE)) by (nonlinear_arith)
        requires
            MUZZLE_SPEED == 2 * ONE,
    {
    }
}

/// The orientation of a bullet gives back the facing of the ship that
/// fired it: the angle between the x axis and the velocity of a bullet
/// fired at `facing` is `facing` up to the half turn, and beyond it the
/// angle that completes `facing` to a full turn, since the angle between
/// two vectors is counted whichever way round.
pub proof fn law_bullet_orientation_gives_the_facing_back(facing: int)
    requires
        is_angle(facing),
    ensures
        (Vec2 { x: ONE, y: 0 }).spec_angle_between(
            heading(facing).spec_scaled(MUZZLE_SPEED as int),
        ) == if facing <= 180 {
            facing
        } else {
            360 - facing
        },
{
    let c = cos_micro(facing);
    let s = sin_micro(facing);
    let axis = Vec2 { x: ONE, y: 0 };
    let vel = heading(facing).spec_scaled(MUZZLE_SPEED as int);
    lemma_unit_bounds(facing);
    assert(c * MUZZLE_SPEED == (2 * c) * ONE) by (nonlinear_arith)
        requires
            MUZZLE_SPEED == 2 * ONE,
    {
    }
    assert(s * MUZZLE_SPEED == (2 * s) * ONE) by (nonlinear_arith)
        requires
            MUZZLE_SPEED == 2 * ONE,
    {
    }
    lemma_whole_units(2 * c);
    lemma_whole_units(2 * s);
    assert(vel.x == 2 * c && vel.y == 2 * s);
    let back = if facing <= 180 {
        facing
    } else {
        360 - facing
    };
    let cb = cos_micro(back);
    let sb = sin_micro(back);
    if facing > 180 {
        lemma_mirror(facing);
    }
    lemma_quarter_sine_bounds(back);
    lemma_quarter_sine_bounds(180 - back);
    assert(sb >= 0);
    assert(cb == c);
    assert(sb == s || sb == -s);
    let along = axis.spec_dot(vel);
    let cross = axis.spec_cross(vel);
    let across = if cross >= 0 {
        cross
    } else {
        -cross
    };
    assert(along == 2 * ONE * cb && cross == 2 * ONE * s) by (nonlinear_arith)
        requires
            along == axis.x * vel.x + axis.y * vel.y,
            cross == axis.x * vel.y - axis.y * vel.x,
            axis.x == ONE,
            axis.y == 0,
            vel.x == 2 * c,
            vel.y == 2 * s,
            cb == c,
    {
    }
    assert(across == 2 * ONE * sb) by (nonlinear_arith)
        requires
            cross == 2 * ONE * s,
            across == if cross >= 0 {
                cross
            } else {
                -cross
            },
            sb >= 0,
            sb == s || sb == -s,
            ONE == 1_000_000,
    {
    }
    assert forall|e: int| 0 <= e <= 180 && e != back implies #[trigger] alignment(
        along,
        across,
        e,
    ) < alignment(along, across, back) by {
        lemma_own_heading_fits_best(back, e);
        let ce = cos_micro(e);
        let se = sin_micro(e);
        assert(along * ce + across * se == 2 * ONE * (cb * ce + sb * se)) by (nonlinear_arith)
            requires
                along == 2 * ONE * cb,
                across == 2 * ONE * sb,
        {
        }
        assert(along * cb + across * sb == 2 * ONE * (cb * cb + sb * sb)) by (nonlinear_arith)
            requires
                along == 2 * ONE * cb,
                across == 2 * ONE * sb,
        {
        }
        assert(2 * ONE * (cb * ce + sb * se) < 2 * ONE * (cb * cb + sb * sb))
            by (nonlinear_arith)
            requires
                cb * ce + sb * se < cb * cb + sb * sb,
                ONE == 1_000_000,
        {
        }
    }
    lemma_nearest_is_the_best(along, across, back);
}

/// The square of ninety-nine hundredths of the speed cap.
pub const NEAR_CAP_SQ: i64 = 980_100_000_000;

/// The ship after the thrusts of `accels`, one after the other.
pub open spec fn thrust_all(ship: Ship, accels: Seq<int>) -> Ship
    decreases accels.len(),
{
    if accels.len() == 0 {
        ship
    } else {
        thrust_all(ship, accels.drop_last()).accelerated(accels.last())
    }
}

/// One thrust leaves a valid ship valid, whatever its strength: the speed
/// ends within the cap.
pub proof fn law_thrust_keeps_speed_cap(ship: Ship, accel: int)
    requires
        ship.wf(),
        in_range(accel),
    ensures
        ship.accelerated(accel).wf(),
        ship.accelerated(accel).vel.spec_sqnorm() <= SPEED_CAP_SQ,
{
    let pushed = ship.vel.spec_plus(heading(ship.orient as int).spec_scaled(accel));
    lemma_unit_bounds(ship.orient as int);
    assert(pushed.bounded());
    if pushed.spec_sqnorm() > SPEED_CAP_SQ {
        lemma_product_bound(pushed.x as int, pushed.x as int, COORD_MAX as int, COORD_MAX as int);
        lemma_product_bound(pushed.y as int, pushed.y as int, COORD_MAX as int, COORD_MAX as int);
        lemma_sqrt_exists(pushed.spec_sqnorm());
        let n = ceil_sqrt(pushed.spec_sqnorm());
        assert(n > 0) by (nonlinear_arith)
            requires
                pushed.spec_sqnorm() > 0,
                pushed.spec_sqnorm() <= n * n,
                0 <= n,
        {
        }
        lemma_normalized_capped(pushed, n);
    }
}

/// The cap is hard: a thrust that would take the ship above the speed cap
/// leaves it at the cap, to within three millionths, not below.
pub proof fn law_capped_ship_moves_at_the_cap(ship: Ship, accel: int)
    requires
        ship.wf(),
        in_range(accel),
        ship.vel.spec_plus(heading(ship.orient as int).spec_scaled(accel)).spec_sqnorm()
            > SPEED_CAP_SQ,
    ensures
        SPEED_CAP_SQ - 5 * ONE <= ship.accelerated(accel).vel.spec_sqnorm() <= SPEED_CAP_SQ,
{
    let pushed = ship.vel.spec_plus(heading(ship.orient as int).spec_scaled(accel));
    lemma_unit_bounds(ship.orient as int);
    assert(pushed.bounded());
    lemma_product_bound(pushed.x as int, pushed.x as int, COORD_MAX as int, COORD_MAX as int);
    lemma_product_bound(pushed.y as int, pushed.y as int, COORD_MAX as int, COORD_MAX as int);
    lemma_sqrt_exists(pushed.spec_sqnorm());
    let n = ceil_sqrt(pushed.spec_sqnorm());
    assert(n >= ONE) by (nonlinear_arith)
        requires
            pushed.spec_sqnorm() > 1_000_000_000_000,
            pushed.spec_sqnorm() <= n * n,
            0 <= n,
            ONE == 1_000_000,
    {
    }
    lemma_normalized_capped(pushed, n);
    lemma_normalized_nearly_unit(pushed, n);
}

/// One tick of thrust on a ship slower than ninety-nine hundredths of the
/// cap adds exactly `ACCEL` times the heading of its facing to the
/// velocity, forward or backward, each component rounded toward zero: the
/// cap does not come into play. The velocity changes, nothing else does.
pub proof fn law_thrust_below_the_cap_adds_along_the_facing(ship: Ship, forward: bool)
    requires
        ship.wf(),
        ship.vel.spec_sqnorm() < NEAR_CAP_SQ,
    ensures
        ({
            let accel = if forward {
                ACCEL as int
            } else {
                -ACCEL
            };
            let after = ship.accelerated(accel);
            &&& after.vel.x == ship.vel.x + mul_fixed(cos_micro(ship.orient as int), accel)
            &&& after.vel.y == ship.vel.y + mul_fixed(sin_micro(ship.orient as int), accel)
            &&& after.vel != ship.vel
            &&& after.pos == ship.pos
            &&& after.orient == ship.orient
            &&& after.health == ship.health
            &&& after.wf()
        }),
{
    let accel = if forward {
        ACCEL as int
    } else {
        -ACCEL
    };
    let deg = ship.orient as int;
    let c = cos_micro(deg);
    let s = sin_micro(deg);
    lemma_unit_bounds(deg);
    lemma_heading_hundredth(deg);
    let hc = div_toward_zero(c, 100);
    let hs = div_toward_zero(s, 100);
    let kx = mul_fixed(c, accel);
    let ky = mul_fixed(s, accel);
    assert(c * ACCEL == c * 10_000 && s * ACCEL == s * 10_000);
    assert(c * (-ACCEL) == -(c * 10_000) && s * (-ACCEL) == -(s * 10_000));
    assert(kx == hc || kx == -hc);
    assert(ky == hs || ky == -hs);
    assert(kx != 0 || ky != 0);
    let k = kx * kx + ky * ky;
    assert(k <= 100_000_000 && -10_000 <= kx <= 10_000 && -10_000 <= ky <= 10_000)
        by (nonlinear_arith)
        requires
            k == kx * kx + ky * ky,
            kx == hc || kx == -hc,
            ky == hs || ky == -hs,
            hc * hc + hs * hs <= 100_000_000,
    {
        assert(kx * kx == hc * hc);
        assert(ky * ky == hs * hs);
        assert(kx * kx >= 0 && ky * ky >= 0);
        if kx > 10_000 || kx < -10_000 {
            assert(kx * kx > 100_000_000);
        }
        if ky > 10_000 || ky < -10_000 {
            assert(ky * ky > 100_000_000);
        }
    }
    let vx = ship.vel.x as int;
    let vy = ship.vel.y as int;
    let v = vx * vx + vy * vy;
    assert(-990_000 < vx < 990_000 && -990_000 < vy < 990_000) by (nonlinear_arith)
        requires
            vx * vx + vy * vy < 980_100_000_000,
    {
        assert(vx * vx >= 0 && vy * vy >= 0);
        if vx >= 990_000 || vx <= -990_000 {
            assert(vx * vx >= 980_100_000_000);
        }
        if vy >= 990_000 || vy <= -990_000 {
            assert(vy * vy >= 980_100_000_000);
        }
    }
    let kick = heading(deg).spec_scaled(accel);
    assert(kick.x == kx && kick.y == ky);
    let pushed = ship.vel.spec_plus(kick);
    assert(pushed.x == vx + kx && pushed.y == vy + ky);
    let dot = vx * kx + vy * ky;
    lemma_inner_product_bound(vx, vy, kx, ky);
    assert(dot < 9_900_000_000) by (nonlinear_arith)
        requires
            dot * dot <= v * k,
            0 <= v < 980_100_000_000,
            0 <= k <= 100_000_000,
    {
        assert(v * k <= 980_099_999_999 * 100_000_000);
        if dot >= 9_900_000_000 {
            assert(dot * dot >= 9_900_000_000 * 9_900_000_000);
        }
    }
    assert(pushed.spec_sqnorm() == v + 2 * dot + k) by (nonlinear_arith)
        requires
            pushed.x == vx + kx,
            pushed.y == vy + ky,
            v == vx * vx + vy * vy,
            k == kx * kx + ky * ky,
            dot == vx * kx + vy * ky,
    {
    }
    assert(pushed.spec_sqnorm() <= SPEED_CAP_SQ);
    assert(ship.accelerated(accel).vel == pushed);
    law_thrust_keeps_speed_cap(ship, accel);
}

/// The inner product of two vectors is no larger than the product of their
/// lengths.
proof fn lemma_inner_product_bound(ax: int, ay: int, bx: int, by: int)
    ensures
        (ax * bx + ay * by) * (ax * bx + ay * by) <= (ax * ax + ay * ay) * (bx * bx + by * by),
        ax * ax + ay * ay >= 0,
        bx * bx + by * by >= 0,
{
    let p = ax * bx;
    let q = ay * by;
    let r = ax * by;
    let t = ay * bx;
    assert(p * q == r * t) by (nonlinear_arith)
        requires
            p == ax * bx,
            q == ay * by,
            r == ax * by,
            t == ay * bx,
    {
    }
    assert((ax * ax) * (bx * bx) == p * p) by (nonlinear_arith)
        requires
            p == ax * bx,
    {
    }
    assert((ay * ay) * (by * by) == q * q) by (nonlinear_arith)
        requires
            q == ay * by,
    {
    }
    assert((ax * ax) * (by * by) == r * r) by (nonlinear_arith)
        requires
            r == ax * by,
    {
    }
    assert((ay * ay) * (bx * bx) == t * t) by (nonlinear_arith)
        requires
            t == ay * bx,
    {
    }
    let a2 = ax * ax;
    let a3 = ay * ay;
    let b2 = bx * bx;
    let b3 = by * by;
    assert((a2 + a3) * (b2 + b3) == a2 * b2 + a2 * b3 + a3 * b2 + a3 * b3) by (nonlinear_arith);
    assert((p + q) * (p + q) == p * p + 2 * (p * q) + q * q) by (nonlinear_arith);
    assert((r - t) * (r - t) == r * r - 2 * (r * t) + t * t) by (nonlinear_arith);
    assert((r - t) * (r - t) >= 0) by (nonlinear_arith);
    assert(a2 >= 0 && a3 >= 0 && b2 >= 0 && b3 >= 0) by (nonlinear_arith)
        requires
            a2 == ax * ax,
            a3 == ay * ay,
            b2 == bx * bx,
            b3 == by * by,
    {
    }
}

/// The board after the intent of `key` took effect, if the key is held.
pub open spec fn applied_if(state: BoardState, held: Set<Key>, key: Key) -> BoardState {
    if held.contains(key) {
        state.applied(intent_of(key))
    } else {
        state
    }
}

/// The held keys take effect one after the other, in the order left,
/// right, up, down, fire, quit, each only if it is held.
pub proof fn lemma_input_key_by_key(state: BoardState, held: Set<Key>)
    ensures
        state.applied_all(intents_of(held)) == applied_if(
            applied_if(
                applied_if(
                    applied_if(
                        applied_if(applied_if(state, held, Key::Left), held, Key::Right),
                        held,
                        Key::Up,
                    ),
                    held,
                    Key::Down,
                ),
                held,
                Key::Fire,
            ),
            held,
            Key::Quit,
        ),
{
    let none = Seq::<Intent>::empty();
    let one = intent_if_held(held, Key::Left);
    let two = one + intent_if_held(held, Key::Right);
    let three = two + intent_if_held(held, Key::Up);
    let four = three + intent_if_held(held, Key::Down);
    let five = four + intent_if_held(held, Key::Fire);
    let six = five + intent_if_held(held, Key::Quit);
    assert(six == intents_of(held));
    lemma_applied_all_none(state);
    lemma_held_key_next(state, held, none, Key::Left);
    assert(none + intent_if_held(held, Key::Left) =~= one);
    lemma_held_key_next(state, held, one, Key::Right);
    lemma_held_key_next(state, held, two, Key::Up);
    lemma_held_key_next(state, held, three, Key::Down);
    lemma_held_key_next(state, held, four, Key::Fire);
    lemma_held_key_next(state, held, five, Key::Quit);
}

/// After the intents so far, the intent of the next key takes effect if
/// the key is held.
proof fn lemma_held_key_next(state: BoardState, held: Set<Key>, so_far: Seq<Intent>, key: Key)
    ensures
        state.applied_all(so_far + intent_if_held(held, key)) == applied_if(
            state.applied_all(so_far),
            held,
            key,
        ),
{
    if held.contains(key) {
        assert(so_far + intent_if_held(held, key) =~= so_far.push(intent_of(key)));
        lemma_applied_all_push(state, so_far, intent_of(key));
    } else {
        assert(so_far + intent_if_held(held, key) =~= so_far);
    }
}

/// The facing of the ship after the turns of one tick: by `TURN_STEP` to
/// the left if the left key is held, then by as much to the right if the
/// right key is held.
pub open spec fn facing_after_turns(orient: int, held: Set<Key>) -> int {
    let after_left = if held.contains(Key::Left) {
        turned(orient, TURN_STEP as int)
    } else {
        orient
    };
    if held.contains(Key::Right) {
        turned(after_left, 360 - TURN_STEP)
    } else {
        after_left
    }
}

/// With the up key held and the down key not, on a ship slower than
/// ninety-nine hundredths of the cap, the input of one tick adds exactly
/// `ACCEL` times the heading of the facing to the velocity, where the
/// facing is the one after the turns of this tick; with the down key held
/// and the up key not it takes as much away. Either way the velocity
/// changes, and the position does not.
pub proof fn law_held_thrust_adds_along_the_facing(game: GameState)
    requires
        game.wf(),
        game.held.contains(Key::Up) != game.held.contains(Key::Down),
        game.board.ship.vel.spec_sqnorm() < NEAR_CAP_SQ,
    ensures
        ({
            let before = game.board.ship;
            let after = game.after_input().board.ship;
            let facing = facing_after_turns(before.orient as int, game.held);
            let accel = if game.held.contains(Key::Up) {
                ACCEL as int
            } else {
                -ACCEL
            };
            &&& after.orient == facing
            &&& after.vel.x == before.vel.x + mul_fixed(cos_micro(facing), accel)
            &&& after.vel.y == before.vel.y + mul_fixed(sin_micro(facing), accel)
            &&& after.vel != before.vel
            &&& after.pos == before.pos
            &&& after.health == before.health
        }),
{
    let held = game.held;
    let state = game.board;
    lemma_input_key_by_key(state, held);
    let one = applied_if(state, held, Key::Left);
    let two = applied_if(one, held, Key::Right);
    let three = applied_if(two, held, Key::Up);
    let four = applied_if(three, held, Key::Down);
    let five = applied_if(four, held, Key::Fire);
    let six = applied_if(five, held, Key::Quit);
    assert(two.ship.vel == state.ship.vel);
    assert(two.ship.pos == state.ship.pos);
    assert(two.ship.health == state.ship.health);
    assert(two.ship.orient == facing_after_turns(state.ship.orient as int, held));
    assert(two.ship.wf());
    law_thrust_below_the_cap_adds_along_the_facing(two.ship, held.contains(Key::Up));
    assert(six.ship == four.ship);
}

/// No sequence of thrusts takes the ship above the speed cap.
pub proof fn law_speed_cap(ship: Ship, accels: Seq<int>)
    requires
        ship.wf(),
        forall|i: int| 0 <= i < accels.len() ==> in_range(#[trigger] accels[i]),
    ensures
        thrust_all(ship, accels).wf(),
        thrust_all(ship, accels).vel.spec_sqnorm() <= SPEED_CAP_SQ,
    decreases accels.len(),
{
    if accels.len() > 0 {
        let earlier = accels.drop_last();
        assert forall|i: int| 0 <= i < earlier.len() implies in_range(#[trigger] earlier[i]) by {
            assert(earlier[i] == accels[i]);
        }
        law_speed_cap(ship, earlier);
        assert(in_range(accels[accels.len() - 1]));
        law_thrust_keeps_speed_cap(thrust_all(ship, earlier), accels.last());
    }
}

/// The sweep removes a bullet if and only if the squared distance of its
/// position from the origin exceeds `SWEEP_LIMIT_SQ`; a bullet exactly at
/// the limit stays, every bullet that stays is unchanged, and none appears.
/// The ship, the counters and the mooks with health are untouched.
pub proof fn law_sweep_removes_exactly_the_expired(state: BoardState, key: u32)
    ensures
        state.swept().bullets.contains_key(key) <==> state.bullets.contains_key(key)
            && state.bullets[key].pos.x * state.bullets[key].pos.x + state.bullets[key].pos.y
            * state.bullets[key].pos.y <= SWEEP_LIMIT_SQ,
        state.swept().bullets.contains_key(key) ==> state.swept().bullets[key]
            == state.bullets[key],
        state.swept().mooks.contains_key(key) <==> state.mooks.contains_key(key)
            && state.mooks[key].health > 0,
        state.swept().mooks.contains_key(key) ==> state.swept().mooks[key] == state.mooks[key],
        state.swept().ship == state.ship,
        state.swept().bulletct == state.bulletct,
        state.swept().mookct == state.mookct,
{
}

/// After a tick no bullet is left that is outside the field and no mook
/// that is without health; the board is valid, the ship has moved by one
/// step, and no counter has gone down.
pub proof fn law_tick_leaves_nothing_expired(state: BoardState)
    requires
        state.wf(),
    ensures
        state.ticked().wf(),
        forall|k: u32| #[trigger]
            state.ticked().bullets.contains_key(k) ==> !state.ticked().bullets[k].expired(),
        forall|k: u32| #[trigger]
            state.ticked().mooks.contains_key(k) ==> !state.ticked().mooks[k].destroyed(),
        state.ticked().ship == state.ship.stepped(),
        state.ticked().bulletct == state.bulletct,
        state.ticked().mookct >= state.mookct,
{
    lemma_advanced_wf(state);
    lemma_collided_keeps(state.advanced());
    lemma_swept_wf(state.advanced().collided());
}

/// The state after the mooks of `mooks` entered, one after the other.
pub open spec fn spawned_all(state: BoardState, mooks: Seq<Mook>) -> BoardState
    decreases mooks.len(),
{
    if mooks.len() == 0 {
        state
    } else {
        spawned_all(state, mooks.drop_last()).with_mook(mooks.last())
    }
}

/// The state after the bullets of `bullets` entered, one after the other.
pub open spec fn fired_all(state: BoardState, bullets: Seq<Bullet>) -> BoardState
    decreases bullets.len(),
{
    if bullets.len() == 0 {
        state
    } else {
        fired_all(state, bullets.drop_last()).with_bullet(bullets.last())
    }
}

/// Mooks that enter one after the other get consecutive keys in the order
/// in which they enter, starting at the counter: on a new board the keys of
/// `n` mooks are `0 .. n`. The mooks that were there stay as they are.
pub proof fn law_mook_keys_in_issuance_order(state: BoardState, mooks: Seq<Mook>)
    requires
        state.wf(),
        forall|i: int| 0 <= i < mooks.len() ==> (#[trigger] mooks[i]).wf(),
        state.mookct + mooks.len() <= u32::MAX,
    ensures
        spawned_all(state, mooks).wf(),
        spawned_all(state, mooks).mookct == state.mookct + mooks.len(),
        forall|i: int|
            0 <= i < mooks.len() ==> spawned_all(state, mooks).mooks.contains_key(
                #[trigger] ((state.mookct + i) as u32),
            ) && spawned_all(state, mooks).mooks[(state.mookct + i) as u32] == mooks[i],
        forall|k: u32|
            spawned_all(state, mooks).mooks.contains_key(k) <==> state.mooks.contains_key(k) || (
            state.mookct <= k < state.mookct + mooks.len()),
        forall|k: u32| #[trigger]
            state.mooks.contains_key(k) ==> spawned_all(state, mooks).mooks[k] == state.mooks[k],
        spawned_all(state, mooks).bullets == state.bullets,
        spawned_all(state, mooks).bulletct == state.bulletct,
        spawned_all(state, mooks).ship == state.ship,
    decreases mooks.len(),
{
    if mooks.len() > 0 {
        let earlier = mooks.drop_last();
        assert forall|i: int| 0 <= i < earlier.len() implies (#[trigger] earlier[i]).wf() by {
            assert(earlier[i] == mooks[i]);
        }
        law_mook_keys_in_issuance_order(state, earlier);
        let prev = spawned_all(state, earlier);
        let last = mooks.last();
        assert(mooks[mooks.len() - 1].wf());
        let after = spawned_all(state, mooks);
        assert(after == prev.with_mook(last));
        assert forall|i: int| 0 <= i < mooks.len() implies after.mooks.contains_key(
            #[trigger] ((state.mookct + i) as u32),
        ) && after.mooks[(state.mookct + i) as u32] == mooks[i] by {
            if i < earlier.len() {
                assert(prev.mooks.contains_key((state.mookct + i) as u32));
                assert(earlier[i] == mooks[i]);
            }
        }
    }
}

/// Bullets that enter one after the other get consecutive keys in the
/// order in which they enter, starting at the counter.
pub proof fn law_bullet_keys_in_issuance_order(state: BoardState, bullets: Seq<Bullet>)
    requires
        state.wf(),
        forall|i: int| 0 <= i < bullets.len() ==> (#[trigger] bullets[i]).wf(),
        state.bulletct + bullets.len() <= u32::MAX,
    ensures
        fired_all(state, bullets).wf(),
        fired_all(state, bullets).bulletct == state.bulletct + bullets.len(),
        forall|i: int|
            0 <= i < bullets.len() ==> fired_all(state, bullets).bullets.contains_key(
                #[trigger] ((state.bulletct + i) as u32),
            ) && fired_all(state, bullets).bullets[(state.bulletct + i) as u32] == bullets[i],
        forall|k: u32|
            fired_all(state, bullets).bullets.contains_key(k) <==> state.bullets.contains_key(k)
                || (state.bulletct <= k < state.bulletct + bullets.len()),
        forall|k: u32| #[trigger]
            state.bullets.contains_key(k) ==> fired_all(state, bullets).bullets[k]
                == state.bullets[k],
        fired_all(state, bullets).mooks == state.mooks,
        fired_all(state, bullets).mookct == state.mookct,
        fired_all(state, bullets).ship == state.ship,
    decreases bullets.len(),
{
    if bullets.len() > 0 {
        let earlier = bullets.drop_last();
        assert forall|i: int| 0 <= i < earlier.len() implies (#[trigger] earlier[i]).wf() by {
            assert(earlier[i] == bullets[i]);
        }
        law_bullet_keys_in_issuance_order(state, earlier);
        let prev = fired_all(state, earlier);
        let last = bullets.last();
        assert(bullets[bullets.len() - 1].wf());
        let after = fired_all(state, bullets);
        assert(after == prev.with_bullet(last));
        assert forall|i: int| 0 <= i < bullets.len() implies after.bullets.contains_key(
            #[trigger] ((state.bulletct + i) as u32),
        ) && after.bullets[(state.bulletct + i) as u32] == bullets[i] by {
            if i < earlier.len() {
                assert(prev.bullets.contains_key((state.bulletct + i) as u32));
                assert(earlier[i] == bullets[i]);
            }
        }
    }
}

/// A key that was issued is never issued again: the next key of either
/// kind belongs to no live entity, and stays different from every key that
/// was live, also after that entity is removed.
pub proof fn law_keys_are_never_reused(state: BoardState, mook: Mook, bullet: Bullet)
    requires
        state.wf(),
    ensures
        !state.mooks.contains_key(state.mookct),
        !state.bullets.contains_key(state.bulletct),
        forall|k: u32| #[trigger]
            state.mooks.contains_key(k) ==> !(BoardState {
                mooks: state.mooks.remove(k),
                ..state
            }).with_mook(mook).mooks.contains_key(k),
        forall|k: u32| #[trigger]
            state.bullets.contains_key(k) ==> !(BoardState {
                bullets: state.bullets.remove(k),
                ..state
            }).with_bullet(bullet).bullets.contains_key(k),
        state.swept().mookct == state.mookct,
        state.swept().bulletct == state.bulletct,
        state.advanced().mookct == state.mookct,
        state.advanced().bulletct == state.bulletct,
        state.collided().mookct >= state.mookct,
        state.collided().bulletct == state.bulletct,
        forall|k: u32| #[trigger]
            state.collided().mooks.contains_key(k) && !state.mooks.contains_key(k) ==> k
                >= state.mookct,
{
    if state.mooks.contains_key(state.mookct) {
        assert(state.mookct < state.mookct);
    }
    if state.bullets.contains_key(state.bulletct) {
        assert(state.bulletct < state.bulletct);
    }
    lemma_collided_keeps(state);
}

/// A mook and a bullet alone on the board, the bullet hitting the mook:
/// the collision pass removes the bullet and takes `DAMAGE` from the mook
/// once, down to zero at most.
pub proof fn law_hit_spends_bullet_and_damages_mook(state: BoardState, mk: u32, bk: u32)
    requires
        state.wf(),
        state.mooks.dom() == set![mk],
        state.bullets.dom() == set![bk],
        collides(state.mooks[mk], state.bullets[bk]),
    ensures
        state.collided().bullets == Map::<u32, Bullet>::empty(),
        state.collided().mooks.contains_key(mk),
        state.collided().mooks[mk] == state.mooks[mk].damaged(1),
        state.collided().mooks[mk].health == if state.mooks[mk].health <= DAMAGE {
            0
        } else {
            state.mooks[mk].health - DAMAGE
        },
{
    let mook = state.mooks[mk];
    let bullet = state.bullets[bk];
    assert(state.mooks.contains_key(mk));
    assert(state.bullets.contains_key(bk));
    assert(hitters(mook, state.bullets) =~= set![bk]);
    assert(strikes(bullet, state.mooks));
    assert(state.resolved().bullets =~= Map::<u32, Bullet>::empty());
    lemma_collided_keeps(state);
    assert(1 * DAMAGE == 500_000);
}

/// A mook and a bullet alone on the board whose bounding circles do not
/// overlap: the collision pass changes nothing.
pub proof fn law_far_pair_is_untouched(state: BoardState, mk: u32, bk: u32)
    requires
        state.wf(),
        state.mooks.dom() == set![mk],
        state.bullets.dom() == set![bk],
        !near(state.mooks[mk], state.bullets[bk]),
    ensures
        state.collided() == state,
{
    let mook = state.mooks[mk];
    let bullet = state.bullets[bk];
    assert(state.mooks.contains_key(mk));
    assert(state.bullets.contains_key(bk));
    assert(hitters(mook, state.bullets) =~= Set::<u32>::empty());
    assert(!strikes(bullet, state.mooks));
    assert(mook.damaged(0) == mook);
    assert(state.resolved().bullets =~= state.bullets);
    assert(state.resolved().mooks =~= state.mooks);
    assert(state.resolved() == state);
    lemma_breaking_lists(state);
    let order = state.breaking();
    if order.len() > 0 {
        assert(order.contains(order[0]));
        assert(state.breaks(order[0]));
    }
    assert(order =~= Seq::<u32>::empty());
    lemma_split_by_none(state);
}

/// On any board, a bullet that hits a mook is spent and the mook loses
/// health unless it had none; a bullet near no mook stays, and a mook near
/// no bullet keeps its health.
pub proof fn law_collisions_touch_only_what_collides(state: BoardState, mk: u32, bk: u32)
    requires
        state.wf(),
        state.mooks.contains_key(mk),
        state.bullets.contains_key(bk),
    ensures
        collides(state.mooks[mk], state.bullets[bk]) ==> !state.collided().bullets.contains_key(
            bk,
        ) && state.hit_count(mk) >= 1 && (state.mooks[mk].health > 0
            ==> state.collided().mooks[mk].health < state.mooks[mk].health),
        (forall|m: u32| #[trigger]
            state.mooks.contains_key(m) ==> !near(state.mooks[m], state.bullets[bk]))
            ==> state.collided().bullets.contains_key(bk) && state.collided().bullets[bk]
            == state.bullets[bk],
        (forall|b: u32| #[trigger]
            state.bullets.contains_key(b) ==> !near(state.mooks[mk], state.bullets[b]))
            ==> state.collided().mooks[mk] == state.mooks[mk],
{
    let mook = state.mooks[mk];
    let bullet = state.bullets[bk];
    let struck = hitters(mook, state.bullets);
    lemma_collided_keeps(state);
    state.bullets.dom().lemma_len_filter(|b: u32| collides(mook, state.bullets[b]));
    if collides(mook, bullet) {
        assert(struck.contains(bk));
        assert(struck.len() >= 1) by {
            if struck.len() == 0 {
                assert(struck =~= Set::<u32>::empty());
            }
        }
        assert(state.hit_count(mk) * DAMAGE >= 500_000) by (nonlinear_arith)
            requires
                state.hit_count(mk) >= 1,
                DAMAGE == 500_000,
        {
        }
    }
    if forall|b: u32| #[trigger]
        state.bullets.contains_key(b) ==> !near(state.mooks[mk], state.bullets[b]) {
        assert(struck =~= Set::<u32>::empty());
        assert(mook.damaged(0) == mook);
    }
}

} // verus!
