//! The board as a mathematical value, and what each pass of a tick does to
//! it.
//!
//! A tick advances every entity, resolves the collisions between mooks and
//! bullets, and sweeps what has expired. Each pass is a function on
//! `BoardState`; the executable board is held to these.

use vstd::prelude::*;
use crate::bullet::Bullet;
use crate::collision::collides;
use crate::events::Intent;
use crate::mook::Mook;
use crate::ship::{Ship, TURN_STEP};
use crate::units::ACCEL;

verus! {

/// The board as a mathematical value: the ship, the live mooks and bullets
/// by key, and the two counters from which the next keys are taken.
pub struct BoardState {
    pub ship: Ship,
    pub mooks: Map<u32, Mook>,
    pub bullets: Map<u32, Bullet>,
    pub bulletct: u32,
    pub mookct: u32,
}

impl BoardState {
    /// Whether the state is a valid one: every entity is valid, only
    /// finitely many are live, and every live key was issued, that is, lies
    /// below its counter.
    pub open spec fn wf(self) -> bool {
        &&& self.ship.wf()
        &&& self.mooks.dom().finite()
        &&& self.bullets.dom().finite()
        &&& forall|k: u32| #[trigger]
            self.mooks.contains_key(k) ==> k < self.mookct && self.mooks[k].wf()
        &&& forall|k: u32| #[trigger]
            self.bullets.contains_key(k) ==> k < self.bulletct && self.bullets[k].wf()
    }

    /// The state of a new session: a fresh ship and nothing else.
    pub open spec fn initial() -> BoardState {
        BoardState {
            ship: Ship {
                pos: crate::vector::Vec2 { x: 0, y: 0 },
                vel: crate::vector::Vec2 { x: 0, y: 0 },
                orient: 0,
                health: crate::units::FULL_HEALTH,
            },
            mooks: Map::empty(),
            bullets: Map::empty(),
            bulletct: 0,
            mookct: 0,
        }
    }

    /// The state after `bullet` entered under the next bullet key. When the
    /// keys are used up the state stays as it is.
    pub open spec fn with_bullet(self, bullet: Bullet) -> BoardState {
        if self.bulletct < u32::MAX {
            BoardState {
                bullets: self.bullets.insert(self.bulletct, bullet),
                bulletct: (self.bulletct + 1) as u32,
                ..self
            }
        } else {
            self
        }
    }

    /// The state after `mook` entered under the next mook key. When the
    /// keys are used up the state stays as it is.
    pub open spec fn with_mook(self, mook: Mook) -> BoardState {
        if self.mookct < u32::MAX {
            BoardState {
                mooks: self.mooks.insert(self.mookct, mook),
                mookct: (self.mookct + 1) as u32,
                ..self
            }
        } else {
            self
        }
    }
}

/// Every bullet of `bullets` moved by one tick.
pub open spec fn stepped_bullets(bullets: Map<u32, Bullet>) -> Map<u32, Bullet> {
    Map::new(|k: u32| bullets.contains_key(k), |k: u32| bullets[k].stepped())
}

/// Every mook of `mooks` moved by one tick.
pub open spec fn stepped_mooks(mooks: Map<u32, Mook>) -> Map<u32, Mook> {
    Map::new(|k: u32| mooks.contains_key(k), |k: u32| mooks[k].stepped())
}

impl BoardState {
    /// The state after every entity moved by one tick: the ship, then the
    /// bullets, then the mooks. Nothing enters or leaves.
    pub open spec fn advanced(self) -> BoardState {
        BoardState {
            ship: self.ship.stepped(),
            bullets: stepped_bullets(self.bullets),
            mooks: stepped_mooks(self.mooks),
            ..self
        }
    }
}

/// The bullets of `bullets` that are still in the field.
pub open spec fn live_bullets(bullets: Map<u32, Bullet>) -> Map<u32, Bullet> {
    Map::new(|k: u32| bullets.contains_key(k) && !bullets[k].expired(), |k: u32| bullets[k])
}

/// The mooks of `mooks` that have health left.
pub open spec fn live_mooks(mooks: Map<u32, Mook>) -> Map<u32, Mook> {
    Map::new(|k: u32| mooks.contains_key(k) && !mooks[k].destroyed(), |k: u32| mooks[k])
}

impl BoardState {
    /// The state after the sweep: a bullet is gone if and only if it had
    /// left the field, a mook if and only if it had no health left. The
    /// survivors, the ship and the counters are untouched.
    pub open spec fn swept(self) -> BoardState {
        BoardState {
            bullets: live_bullets(self.bullets),
            mooks: live_mooks(self.mooks),
            ..self
        }
    }
}

/// Whether each element of `list` is smaller than the next.
pub open spec fn increasing(list: Seq<u32>) -> bool {
    forall|i: int, j: int| 0 <= i < j < list.len() ==> list[i] < list[j]
}

/// The elements of `keys` below `bound`, in ascending order.
pub open spec fn ascending(keys: Set<u32>, bound: nat) -> Seq<u32>
    decreases bound,
{
    if bound == 0 {
        Seq::empty()
    } else {
        let top = bound - 1;
        let rest = ascending(keys, top as nat);
        if top <= u32::MAX && keys.contains(top as u32) {
            rest.push(top as u32)
        } else {
            rest
        }
    }
}

/// The ascending list holds the elements of `keys` below `bound`, and no
/// others, each smaller than the next.
pub proof fn lemma_ascending_lists(keys: Set<u32>, bound: nat)
    ensures
        increasing(ascending(keys, bound)),
        ascending(keys, bound).no_duplicates(),
        forall|x: u32| ascending(keys, bound).contains(x) <==> keys.contains(x) && x < bound,
    decreases bound,
{
    let list = ascending(keys, bound);
    if bound == 0 {
        assert(list.len() == 0);
        assert forall|x: u32| list.contains(x) <==> keys.contains(x) && x < bound by {
            if list.contains(x) {
                let i = choose|i: int| 0 <= i < list.len() && list[i] == x;
            }
        }
    } else {
        let top = bound - 1;
        let rest = ascending(keys, top as nat);
        lemma_ascending_lists(keys, top as nat);
        if top <= u32::MAX && keys.contains(top as u32) {
            let t = top as u32;
            assert(list == rest.push(t));
            assert forall|i: int, j: int| 0 <= i < j < list.len() implies list[i] < list[j] by {
                if j < rest.len() {
                    assert(increasing(rest));
                    assert(rest[i] < rest[j]);
                    assert(list[i] == rest[i] && list[j] == rest[j]);
                } else {
                    let low = rest[i];
                    assert(rest.contains(low));
                    assert(keys.contains(low) && low < top);
                    assert(list[i] == low);
                    assert(list[j] == t);
                }
            }
            assert forall|x: u32| list.contains(x) <==> keys.contains(x) && x < bound by {
                if list.contains(x) {
                    let i = choose|i: int| 0 <= i < list.len() && list[i] == x;
                    if i < rest.len() {
                        assert(rest[i] == x);
                        assert(rest.contains(x));
                    } else {
                        assert(x == t);
                    }
                }
                if keys.contains(x) && x < bound {
                    if x == t {
                        assert(list[rest.len() as int] == x);
                    } else {
                        assert(x < top);
                        assert(rest.contains(x));
                        let i = choose|i: int| 0 <= i < rest.len() && rest[i] == x;
                        assert(list[i] == x);
                    }
                }
            }
        } else {
            assert(list == rest);
            assert forall|x: u32| list.contains(x) <==> keys.contains(x) && x < bound by {
                if keys.contains(x) && x < bound {
                    assert(x != top);
                    assert(x < top);
                }
            }
        }
    }
    assert forall|i: int, j: int| 0 <= i < list.len() && 0 <= j < list.len() && i != j implies
        list[i] != list[j] by {
        if i < j {
            assert(list[i] < list[j]);
        } else {
            assert(list[j] < list[i]);
        }
    }
}

/// Only one list holds exactly the elements of `keys` below `bound`, each
/// smaller than the next: the ascending list.
pub proof fn lemma_ascending_unique(keys: Set<u32>, bound: nat, list: Seq<u32>)
    requires
        increasing(list),
        forall|x: u32| list.contains(x) <==> keys.contains(x) && x < bound,
    ensures
        list == ascending(keys, bound),
    decreases bound,
{
    if bound == 0 {
        if list.len() > 0 {
            assert(list.contains(list[0]));
        }
        assert(list =~= Seq::<u32>::empty());
    } else {
        let top = bound - 1;
        if top <= u32::MAX && keys.contains(top as u32) {
            let t = top as u32;
            assert(list.contains(t));
            let at = choose|i: int| 0 <= i < list.len() && list[i] == t;
            let last = list.len() - 1;
            if at < last {
                assert(list.contains(list[last]));
            }
            assert(list.last() == t);
            let shorter = list.drop_last();
            assert forall|x: u32| shorter.contains(x) <==> keys.contains(x) && x < top by {
                if shorter.contains(x) {
                    let i = choose|i: int| 0 <= i < shorter.len() && shorter[i] == x;
                    assert(list[i] == x);
                    assert(list.contains(x));
                    assert(list[i] < list[last]);
                }
                if keys.contains(x) && x < top {
                    assert(list.contains(x));
                    let i = choose|i: int| 0 <= i < list.len() && list[i] == x;
                    assert(i != last);
                    assert(shorter[i] == x);
                }
            }
            assert(increasing(shorter));
            lemma_ascending_unique(keys, top as nat, shorter);
            assert(list =~= shorter.push(t));
        } else {
            assert forall|x: u32| list.contains(x) <==> keys.contains(x) && x < top by {
                if list.contains(x) {
                    assert(x != top);
                }
            }
            lemma_ascending_unique(keys, top as nat, list);
        }
    }
}

/// The keys of the bullets of `bullets` that hit `mook`.
pub open spec fn hitters(mook: Mook, bullets: Map<u32, Bullet>) -> Set<u32> {
    bullets.dom().filter(|bk: u32| collides(mook, bullets[bk]))
}

/// Whether `bullet` hits any mook of `mooks`.
pub open spec fn strikes(bullet: Bullet, mooks: Map<u32, Mook>) -> bool {
    exists|mk: u32| mooks.contains_key(mk) && collides(#[trigger] mooks[mk], bullet)
}

/// The mooks after each took the damage of every bullet that hits it.
pub open spec fn damaged_mooks(mooks: Map<u32, Mook>, bullets: Map<u32, Bullet>) -> Map<
    u32,
    Mook,
> {
    Map::new(
        |k: u32| mooks.contains_key(k),
        |k: u32| mooks[k].damaged(hitters(mooks[k], bullets).len()),
    )
}

/// The bullets that hit no mook.
pub open spec fn unspent_bullets(bullets: Map<u32, Bullet>, mooks: Map<u32, Mook>) -> Map<
    u32,
    Bullet,
> {
    Map::new(|k: u32| bullets.contains_key(k) && !strikes(bullets[k], mooks), |k: u32| bullets[k])
}

/// Whether the hits of `bullets` destroy `mook` and it breaks in two: it
/// had health left, has none after the hits, and is above the smallest
/// tier.
pub open spec fn breaks_under(mook: Mook, bullets: Map<u32, Bullet>) -> bool {
    &&& !mook.destroyed()
    &&& mook.damaged(hitters(mook, bullets).len()).destroyed()
    &&& mook.splits()
}

impl BoardState {
    /// How many bullets hit the mook with key `mk`.
    pub open spec fn hit_count(self, mk: u32) -> nat {
        hitters(self.mooks[mk], self.bullets).len()
    }

    /// The state after every hit was counted: each mook has lost `DAMAGE`
    /// for each bullet that hits it, down to zero at most, and each bullet
    /// that hits a mook is gone. All hits are judged on the positions the
    /// entities have in `self`, so the outcome does not depend on any order.
    pub open spec fn resolved(self) -> BoardState {
        BoardState {
            mooks: damaged_mooks(self.mooks, self.bullets),
            bullets: unspent_bullets(self.bullets, self.mooks),
            ..self
        }
    }

    /// Whether the hits destroy the mook with key `mk` and it breaks in
    /// two.
    pub open spec fn breaks(self, mk: u32) -> bool {
        self.mooks.contains_key(mk) && breaks_under(self.mooks[mk], self.bullets)
    }

    /// The keys of the mooks that break.
    pub open spec fn breaking_set(self) -> Set<u32> {
        Set::new(|k: u32| self.breaks(k))
    }

    /// The keys of the mooks that break, in ascending order.
    pub open spec fn breaking(self) -> Seq<u32> {
        ascending(self.breaking_set(), self.mookct as nat)
    }

    /// The state after the two halves of `parent` entered under the next
    /// two mook keys. A parent of the smallest tier leaves no halves, and
    /// when fewer than two keys are left none enter: the state then stays
    /// as it is.
    pub open spec fn with_fragments(self, parent: Mook) -> BoardState {
        if parent.splits() && self.mookct <= u32::MAX - 2 {
            BoardState {
                mooks: self.mooks.insert(self.mookct, parent.fragment(true)).insert(
                    (self.mookct + 1) as u32,
                    parent.fragment(false),
                ),
                mookct: (self.mookct + 2) as u32,
                ..self
            }
        } else {
            self
        }
    }

    /// The state after the mooks with the keys of `order` broke in two, one
    /// after the other. The parents stay, without health, until the sweep.
    #[verifier::opaque]
    pub open spec fn split_by(self, order: Seq<u32>) -> BoardState
        decreases order.len(),
    {
        if order.len() == 0 {
            self
        } else {
            self.split_by(order.drop_last()).with_fragments(self.mooks[order.last()])
        }
    }

    /// The state after the collision pass: the hits are counted, and then
    /// the mooks that break do so in the order of their keys, so that the
    /// halves of the mook with the smallest key get the next two keys.
    pub open spec fn collided(self) -> BoardState {
        self.resolved().split_by(self.breaking())
    }

    /// The state after one tick: advance, collide, sweep.
    pub open spec fn ticked(self) -> BoardState {
        self.advanced().collided().swept()
    }
}

/// Damage changes neither where a mook is nor how large it is, so a bullet
/// hits a mook of the damaged map exactly if it hits one of the undamaged.
pub proof fn lemma_strikes_ignores_damage(
    bullet: Bullet,
    mooks: Map<u32, Mook>,
    bullets: Map<u32, Bullet>,
)
    ensures
        strikes(bullet, damaged_mooks(mooks, bullets)) == strikes(bullet, mooks),
{
    let after = damaged_mooks(mooks, bullets);
    if strikes(bullet, mooks) {
        let mk = choose|mk: u32| mooks.contains_key(mk) && collides(#[trigger] mooks[mk], bullet);
        assert(after.contains_key(mk) && collides(after[mk], bullet));
    }
    if strikes(bullet, after) {
        let mk = choose|mk: u32| after.contains_key(mk) && collides(#[trigger] after[mk], bullet);
        assert(mooks.contains_key(mk) && collides(mooks[mk], bullet));
    }
}

/// Letting the halves of a valid mook enter keeps a valid state valid,
/// keeps every mook that was there, and never lowers the counter.
pub proof fn lemma_with_fragments_keeps(state: BoardState, parent: Mook)
    requires
        state.wf(),
        parent.wf(),
    ensures
        state.with_fragments(parent).wf(),
        state.with_fragments(parent).mookct >= state.mookct,
        state.with_fragments(parent).ship == state.ship,
        state.with_fragments(parent).bullets == state.bullets,
        state.with_fragments(parent).bulletct == state.bulletct,
        forall|k: u32| #[trigger]
            state.mooks.contains_key(k) ==> state.with_fragments(parent).mooks.contains_key(k)
                && state.with_fragments(parent).mooks[k] == state.mooks[k],
        forall|k: u32| #[trigger]
            state.with_fragments(parent).mooks.contains_key(k) && !state.mooks.contains_key(k)
                ==> k >= state.mookct,
{
    if parent.splits() && state.mookct <= u32::MAX - 2 {
        lemma_fragments_wf(parent);
        let first = parent.fragment(true);
        let second = parent.fragment(false);
        let next = state.with_fragments(parent);
        let k1 = state.mookct;
        let k2 = (state.mookct + 1) as u32;
        assert(next.mooks == state.mooks.insert(k1, first).insert(k2, second));
        assert forall|k: u32| #[trigger] next.mooks.contains_key(k) implies k < next.mookct
            && next.mooks[k].wf() by {
            if k == k2 {
            } else if k == k1 {
            } else {
                assert(state.mooks.contains_key(k));
            }
        }
    }
}

/// Breaking mooks in two keeps a valid state valid, keeps every mook that
/// was there, and never lowers the counter.
pub proof fn lemma_split_by_keeps(state: BoardState, order: Seq<u32>)
    requires
        state.wf(),
        forall|i: int| 0 <= i < order.len() ==> state.mooks.contains_key(#[trigger] order[i]),
    ensures
        state.split_by(order).wf(),
        state.split_by(order).mookct >= state.mookct,
        state.split_by(order).ship == state.ship,
        state.split_by(order).bullets == state.bullets,
        state.split_by(order).bulletct == state.bulletct,
        forall|k: u32| #[trigger]
            state.mooks.contains_key(k) ==> state.split_by(order).mooks.contains_key(k)
                && state.split_by(order).mooks[k] == state.mooks[k],
        forall|k: u32| #[trigger]
            state.split_by(order).mooks.contains_key(k) && !state.mooks.contains_key(k) ==> k
                >= state.mookct,
    decreases order.len(),
{
    reveal(BoardState::split_by);
    if order.len() > 0 {
        let shorter = order.drop_last();
        assert forall|i: int| 0 <= i < shorter.len() implies state.mooks.contains_key(
            #[trigger] shorter[i],
        ) by {
            assert(shorter[i] == order[i]);
        }
        lemma_split_by_keeps(state, shorter);
        let prev = state.split_by(shorter);
        let parent = state.mooks[order.last()];
        assert(state.mooks.contains_key(order[order.len() - 1]));
        lemma_with_fragments_keeps(prev, parent);
        assert(state.split_by(order) == prev.with_fragments(parent));
    }
}

/// The list of the breaking mooks holds exactly the keys of the mooks that
/// break, each once, and all of them are keys of live mooks.
pub proof fn lemma_breaking_lists(state: BoardState)
    requires
        state.wf(),
    ensures
        increasing(state.breaking()),
        state.breaking().no_duplicates(),
        forall|k: u32| state.breaking().contains(k) <==> state.breaks(k),
        forall|i: int|
            0 <= i < state.breaking().len() ==> state.resolved().mooks.contains_key(
                #[trigger] state.breaking()[i],
            ),
{
    lemma_ascending_lists(state.breaking_set(), state.mookct as nat);
    let list = state.breaking();
    assert forall|k: u32| list.contains(k) <==> state.breaks(k) by {
        assert(state.breaking_set().contains(k) == state.breaks(k));
        if state.breaks(k) {
            assert(state.mooks.contains_key(k));
            assert(k < state.mookct);
        }
    }
    assert forall|i: int| 0 <= i < list.len() implies state.resolved().mooks.contains_key(
        #[trigger] list[i],
    ) by {
        assert(list.contains(list[i]));
    }
}

/// The collision pass keeps a valid state valid, keeps the ship and the
/// bullet counter, spends exactly the bullets that hit a mook, damages the
/// mooks that were there, and never lowers the mook counter.
pub proof fn lemma_collided_keeps(state: BoardState)
    requires
        state.wf(),
    ensures
        state.collided().wf(),
        state.collided().ship == state.ship,
        state.collided().bulletct == state.bulletct,
        state.collided().bullets == unspent_bullets(state.bullets, state.mooks),
        state.collided().mookct >= state.mookct,
        forall|k: u32| #[trigger]
            state.mooks.contains_key(k) ==> state.collided().mooks.contains_key(k)
                && state.collided().mooks[k] == state.mooks[k].damaged(state.hit_count(k)),
        forall|k: u32| #[trigger]
            state.collided().mooks.contains_key(k) && !state.mooks.contains_key(k) ==> k
                >= state.mookct,
{
    lemma_resolved_wf(state);
    lemma_breaking_lists(state);
    lemma_split_by_keeps(state.resolved(), state.breaking());
    assert forall|k: u32| #[trigger] state.mooks.contains_key(k) implies state.collided().mooks
        .contains_key(k) && state.collided().mooks[k] == state.mooks[k].damaged(
        state.hit_count(k),
    ) by {
        assert(state.resolved().mooks.contains_key(k));
    }
    assert forall|k: u32| #[trigger]
        state.collided().mooks.contains_key(k) && !state.mooks.contains_key(k) implies k
        >= state.mookct by {
        assert(!state.resolved().mooks.contains_key(k));
    }
}

/// Advancing a valid state leaves a valid state.
pub proof fn lemma_advanced_wf(state: BoardState)
    requires
        state.wf(),
    ensures
        state.advanced().wf(),
{
    let after = state.advanced();
    assert(after.mooks.dom() =~= state.mooks.dom());
    assert(after.bullets.dom() =~= state.bullets.dom());
    assert forall|k: u32| #[trigger] after.mooks.contains_key(k) implies k < after.mookct
        && after.mooks[k].wf() by {
        assert(state.mooks.contains_key(k));
    }
    assert forall|k: u32| #[trigger] after.bullets.contains_key(k) implies k < after.bulletct
        && after.bullets[k].wf() by {
        assert(state.bullets.contains_key(k));
    }
}

/// Counting the hits keeps a valid state valid.
pub proof fn lemma_resolved_wf(state: BoardState)
    requires
        state.wf(),
    ensures
        state.resolved().wf(),
{
    let after = state.resolved();
    assert(after.mooks.dom() =~= state.mooks.dom());
    assert(after.bullets.dom().subset_of(state.bullets.dom()));
    vstd::set_lib::lemma_len_subset(after.bullets.dom(), state.bullets.dom());
    assert forall|k: u32| #[trigger] after.mooks.contains_key(k) implies k < after.mookct
        && after.mooks[k].wf() by {
        assert(state.mooks.contains_key(k));
        crate::mook::lemma_health_after_one_more(
            state.mooks[k].health as int,
            state.hit_count(k),
        );
    }
}

/// The halves of a valid mook above the smallest tier are valid mooks.
pub proof fn lemma_fragments_wf(parent: Mook)
    requires
        parent.wf(),
        parent.splits(),
    ensures
        parent.fragment(true).wf(),
        parent.fragment(false).wf(),
{
    crate::trig::lemma_unit_bounds(parent.orient as int);
}

impl BoardState {
    /// The state after one intent took effect. Turning rotates the ship by
    /// `TURN_STEP`, thrust pushes it by `ACCEL` along its facing or against
    /// it, firing lets the ship's bullet enter, and quitting changes
    /// nothing on the board.
    pub open spec fn applied(self, intent: Intent) -> BoardState {
        match intent {
            Intent::TurnLeft => BoardState { ship: self.ship.rotated(TURN_STEP as int), ..self },
            Intent::TurnRight => BoardState {
                ship: self.ship.rotated(360 - TURN_STEP),
                ..self
            },
            Intent::Thrust => BoardState { ship: self.ship.accelerated(ACCEL as int), ..self },
            Intent::Reverse => BoardState { ship: self.ship.accelerated(-ACCEL), ..self },
            Intent::Fire => self.with_bullet(self.ship.fired()),
            Intent::Quit => self,
        }
    }

    /// The state after the intents took effect, one after the other.
    #[verifier::opaque]
    pub open spec fn applied_all(self, intents: Seq<Intent>) -> BoardState
        decreases intents.len(),
    {
        if intents.len() == 0 {
            self
        } else {
            self.applied_all(intents.drop_last()).applied(intents.last())
        }
    }
}

/// Applying one intent more is applying the intents so far, then that one.
pub proof fn lemma_applied_all_next(state: BoardState, intents: Seq<Intent>, i: int)
    requires
        0 <= i < intents.len(),
    ensures
        state.applied_all(intents.take(i + 1)) == state.applied_all(intents.take(i)).applied(
            intents[i],
        ),
{
    reveal(BoardState::applied_all);
    let longer = intents.take(i + 1);
    assert(longer.drop_last() =~= intents.take(i));
    assert(longer.last() == intents[i]);
}

/// Applying a list of intents and one more is applying the list, then that
/// one.
pub proof fn lemma_applied_all_push(state: BoardState, intents: Seq<Intent>, intent: Intent)
    ensures
        state.applied_all(intents.push(intent)) == state.applied_all(intents).applied(intent),
{
    reveal(BoardState::applied_all);
    let longer = intents.push(intent);
    assert(longer.drop_last() =~= intents);
    assert(longer.last() == intent);
}

/// Applying no intent changes nothing.
pub proof fn lemma_applied_all_none(state: BoardState)
    ensures
        state.applied_all(Seq::empty()) == state,
{
    reveal(BoardState::applied_all);
}

/// Breaking no mook changes nothing.
pub proof fn lemma_split_by_none(state: BoardState)
    ensures
        state.split_by(Seq::empty()) == state,
{
    reveal(BoardState::split_by);
}

/// Breaking one mook more is breaking the mooks so far, then that one.
pub proof fn lemma_split_by_next(state: BoardState, order: Seq<u32>, i: int)
    requires
        0 <= i < order.len(),
    ensures
        state.split_by(order.take(i + 1)) == state.split_by(order.take(i)).with_fragments(
            state.mooks[order[i]],
        ),
{
    reveal(BoardState::split_by);
    let longer = order.take(i + 1);
    assert(longer.drop_last() =~= order.take(i));
    assert(longer.last() == order[i]);
}

/// Sweeping a valid state leaves a valid state.
pub proof fn lemma_swept_wf(state: BoardState)
    requires
        state.wf(),
    ensures
        state.swept().wf(),
{
    let after = state.swept();
    assert(after.bullets.dom().subset_of(state.bullets.dom()));
    assert(after.mooks.dom().subset_of(state.mooks.dom()));
    vstd::set_lib::lemma_len_subset(after.bullets.dom(), state.bullets.dom());
    vstd::set_lib::lemma_len_subset(after.mooks.dom(), state.mooks.dom());
}

} // verus!
