//! The board: the whole state of one session.

use std::collections::HashMap;
use vstd::prelude::*;
use crate::bullet::Bullet;
use crate::events::Intent;
use crate::mook::Mook;
use crate::passes::{
    bullets_valid, damage_mooks, keys_of, mooks_valid, remove_spent, sorted_keys, step_bullets,
    step_mooks, sweep_bullets, sweep_mooks,
};
use crate::ship::Ship;
use crate::state::{
    lemma_applied_all_next, lemma_applied_all_none, lemma_ascending_unique, lemma_breaking_lists,
    lemma_resolved_wf, lemma_split_by_keeps, lemma_split_by_next, lemma_split_by_none,
    lemma_strikes_ignores_damage, lemma_swept_wf, lemma_with_fragments_keeps, strikes,
    unspent_bullets, BoardState,
};

verus! {

broadcast use vstd::std_specs::hash::group_hash_axioms;

/// The simulation state of one session. It owns the ship, the mooks and the
/// bullets; keys are handed out by two counters that only grow, so no key is
/// ever issued twice.
#[derive(Clone, Debug)]
pub struct Board {
    ship: Ship,
    mooks: HashMap<u32, Mook>,
    bullets: HashMap<u32, Bullet>,
    bulletct: u32,
    mookct: u32,
}

impl View for Board {
    type V = BoardState;

    closed spec fn view(&self) -> BoardState {
        BoardState {
            ship: self.ship,
            mooks: self.mooks@,
            bullets: self.bullets@,
            bulletct: self.bulletct,
            mookct: self.mookct,
        }
    }
}

impl Board {
    /// A board with a fresh ship, no mooks and no bullets.
    pub fn new() -> (board: Board)
        ensures
            board@ == BoardState::initial(),
            board@.wf(),
    {
        Board {
            ship: Ship::new(),
            mooks: HashMap::new(),
            bullets: HashMap::new(),
            bulletct: 0,
            mookct: 0,
        }
    }

    /// Puts `bullet` on the board under the next bullet key and returns the
    /// key, or returns `None` and changes nothing when every key has been
    /// issued.
    pub fn spawn_bullet(&mut self, bullet: Bullet) -> (key: Option<u32>)
        requires
            old(self)@.wf(),
            bullet.wf(),
        ensures
            final(self)@ == old(self)@.with_bullet(bullet),
            final(self)@.wf(),
            key == if old(self)@.bulletct < u32::MAX {
                Some(old(self)@.bulletct)
            } else {
                None
            },
    {
        if self.bulletct == u32::MAX {
            return None;
        }
        let key: u32 = self.bulletct;
        self.bullets.insert(key, bullet);
        self.bulletct = key + 1;
        Some(key)
    }

    /// Puts `mook` on the board under the next mook key and returns the
    /// key, or returns `None` and changes nothing when every key has been
    /// issued.
    pub fn spawn_mook(&mut self, mook: Mook) -> (key: Option<u32>)
        requires
            old(self)@.wf(),
            mook.wf(),
        ensures
            final(self)@ == old(self)@.with_mook(mook),
            final(self)@.wf(),
            key == if old(self)@.mookct < u32::MAX {
                Some(old(self)@.mookct)
            } else {
                None
            },
    {
        if self.mookct == u32::MAX {
            return None;
        }
        let key: u32 = self.mookct;
        self.mooks.insert(key, mook);
        self.mookct = key + 1;
        Some(key)
    }

    /// Moves every entity by one tick: the ship, then the bullets, then the
    /// mooks.
    pub fn advance(&mut self)
        requires
            old(self)@.wf(),
        ensures
            final(self)@ == old(self)@.advanced(),
            final(self)@.wf(),
    {
        self.ship.step();
        step_bullets(&mut self.bullets);
        step_mooks(&mut self.mooks);
    }

    /// Removes the bullets that have left the field and the mooks that
    /// have no health left.
    pub fn sweep(&mut self)
        requires
            old(self)@.wf(),
        ensures
            final(self)@ == old(self)@.swept(),
            final(self)@.wf(),
    {
        sweep_bullets(&mut self.bullets);
        sweep_mooks(&mut self.mooks);
        proof {
            lemma_swept_wf(old(self)@);
        }
    }

    /// Lets the two halves of `parent` enter under the next two mook keys,
    /// if it leaves any and two keys are left.
    fn insert_fragments(&mut self, parent: Mook)
        requires
            old(self)@.wf(),
            parent.wf(),
        ensures
            final(self)@ == old(self)@.with_fragments(parent),
            final(self)@.wf(),
    {
        proof {
            lemma_with_fragments_keeps(self@, parent);
        }
        if self.mookct <= u32::MAX - 2 {
            match parent.explode() {
                Some((first, second)) => {
                    let key: u32 = self.mookct;
                    self.mooks.insert(key, first);
                    self.mooks.insert(key + 1, second);
                    self.mookct = key + 2;
                    assert(self@.mooks =~= old(self)@.with_fragments(parent).mooks);
                },
                None => {},
            }
        }
    }

    /// Breaks the mooks with the keys of `broken` in two, one after the
    /// other: the halves of each enter under the next two mook keys.
    fn split_broken(&mut self, broken: &Vec<u32>)
        requires
            old(self)@.wf(),
            forall|i: int|
                0 <= i < broken@.len() ==> old(self)@.mooks.contains_key(#[trigger] broken@[i]),
        ensures
            final(self)@ == old(self)@.split_by(broken@),
            final(self)@.wf(),
    {
        let ghost start = self@;
        let mut i: usize = 0;
        proof {
            assert(broken@.take(0) =~= Seq::<u32>::empty());
            lemma_split_by_none(start);
        }
        while i < broken.len()
            invariant
                0 <= i <= broken@.len(),
                start.wf(),
                forall|x: int|
                    0 <= x < broken@.len() ==> start.mooks.contains_key(#[trigger] broken@[x]),
                self@ == start.split_by(broken@.take(i as int)),
                self@.wf(),
            decreases broken@.len() - i,
        {
            let k: u32 = broken[i];
            proof {
                let shorter = broken@.take(i as int);
                assert forall|x: int| 0 <= x < shorter.len() implies start.mooks.contains_key(
                    #[trigger] shorter[x],
                ) by {
                    assert(shorter[x] == broken@[x]);
                }
                lemma_split_by_keeps(start, shorter);
                lemma_split_by_next(start, broken@, i as int);
                assert(start.mooks.contains_key(broken@[i as int]));
                assert(self@.mooks.contains_key(k) && self@.mooks[k] == start.mooks[k]);
            }
            let parent: Mook = self.mook_at(k);
            self.insert_fragments(parent);
            i = i + 1;
        }
        assert(broken@.take(broken@.len() as int) =~= broken@);
    }

    /// The mook with the given key.
    fn mook_at(&self, key: u32) -> (mook: Mook)
        requires
            self@.mooks.contains_key(key),
        ensures
            mook == self@.mooks[key],
    {
        let found: Option<&Mook> = self.mooks.get(&key);
        *found.unwrap()
    }

    /// Detects and resolves the collisions between mooks and bullets. Each
    /// mook loses `DAMAGE` for each bullet that hits it, each bullet that
    /// hits a mook is removed, and each mook that the hits destroy breaks
    /// in two if it is above the smallest tier, in the order of the keys.
    /// A mook without health stays on the board until the sweep.
    pub fn collision_detect(&mut self)
        requires
            old(self)@.wf(),
        ensures
            final(self)@ == old(self)@.collided(),
            final(self)@.wf(),
    {
        let ghost start = self@;
        let broken: Vec<u32> = damage_mooks(&mut self.mooks, &self.bullets);
        remove_spent(&mut self.bullets, &self.mooks);
        let order: Vec<u32> = sorted_keys(&broken);
        proof {
            assert(self@.bullets =~= unspent_bullets(start.bullets, start.mooks)) by {
                assert forall|k: u32| start.bullets.contains_key(k) implies strikes(
                    start.bullets[k],
                    self@.mooks,
                ) == strikes(start.bullets[k], start.mooks) by {
                    lemma_strikes_ignores_damage(start.bullets[k], start.mooks, start.bullets);
                }
            }
            assert(self@ == start.resolved());
            lemma_resolved_wf(start);
            assert forall|x: u32|
                order@.contains(x) <==> start.breaking_set().contains(x) && x
                    < start.mookct by {
                if start.breaks(x) {
                    assert(start.mooks.contains_key(x));
                }
            }
            lemma_ascending_unique(start.breaking_set(), start.mookct as nat, order@);
            lemma_breaking_lists(start);
        }
        self.split_broken(&order);
    }

    /// One tick of the simulation: every entity moves, collisions are
    /// resolved, and what has expired is swept, in this order.
    pub fn step(&mut self)
        requires
            old(self)@.wf(),
        ensures
            final(self)@ == old(self)@.ticked(),
            final(self)@.wf(),
    {
        self.advance();
        self.collision_detect();
        self.sweep();
    }

    /// Lets one intent take effect.
    pub fn apply(&mut self, intent: Intent)
        requires
            old(self)@.wf(),
        ensures
            final(self)@ == old(self)@.applied(intent),
            final(self)@.wf(),
    {
        match intent {
            Intent::TurnLeft => {
                self.ship.turn_left();
            },
            Intent::TurnRight => {
                self.ship.turn_right();
            },
            Intent::Thrust => {
                self.ship.accel();
            },
            Intent::Reverse => {
                self.ship.decel();
            },
            Intent::Fire => {
                self.fire();
            },
            Intent::Quit => {},
        }
    }

    /// Lets the intents take effect, one after the other.
    pub fn apply_all(&mut self, intents: &Vec<Intent>)
        requires
            old(self)@.wf(),
        ensures
            final(self)@ == old(self)@.applied_all(intents@),
            final(self)@.wf(),
    {
        let ghost start = self@;
        let mut i: usize = 0;
        proof {
            assert(intents@.take(0) =~= Seq::<Intent>::empty());
            lemma_applied_all_none(start);
        }
        while i < intents.len()
            invariant
                0 <= i <= intents@.len(),
                self@ == start.applied_all(intents@.take(i as int)),
                self@.wf(),
            decreases intents@.len() - i,
        {
            proof {
                lemma_applied_all_next(start, intents@, i as int);
            }
            self.apply(intents[i]);
            i = i + 1;
        }
        assert(intents@.take(intents@.len() as int) =~= intents@);
    }

    /// Whether the board is a valid one. Every board that the functions of
    /// this type build or leave behind is.
    pub fn is_wf(&self) -> (valid: bool)
        ensures
            valid == self@.wf(),
    {
        self.ship.is_wf() && mooks_valid(&self.mooks, self.mookct) && bullets_valid(
            &self.bullets,
            self.bulletct,
        )
    }

    /// The ship.
    pub fn ship(&self) -> (ship: Ship)
        ensures
            ship == self@.ship,
    {
        self.ship
    }

    /// The keys of the live bullets, each once, in no particular order.
    pub fn bullet_keys(&self) -> (keys: Vec<u32>)
        ensures
            keys@.no_duplicates(),
            keys@.to_set() == self@.bullets.dom(),
    {
        keys_of(&self.bullets)
    }

    /// The keys of the live mooks, each once, in no particular order.
    pub fn mook_keys(&self) -> (keys: Vec<u32>)
        ensures
            keys@.no_duplicates(),
            keys@.to_set() == self@.mooks.dom(),
    {
        keys_of(&self.mooks)
    }

    /// The bullet with the given key, if it is live.
    pub fn bullet(&self, key: u32) -> (bullet: Option<Bullet>)
        ensures
            bullet == if self@.bullets.contains_key(key) {
                Some(self@.bullets[key])
            } else {
                None
            },
    {
        match self.bullets.get(&key) {
            Some(found) => Some(*found),
            None => None,
        }
    }

    /// The mook with the given key, if it is live.
    pub fn mook(&self, key: u32) -> (mook: Option<Mook>)
        ensures
            mook == if self@.mooks.contains_key(key) {
                Some(self@.mooks[key])
            } else {
                None
            },
    {
        match self.mooks.get(&key) {
            Some(found) => Some(*found),
            None => None,
        }
    }

    /// How many bullet keys have been issued so far; the next bullet gets
    /// this number as its key.
    pub fn bulletct(&self) -> (n: u32)
        ensures
            n == self@.bulletct,
    {
        self.bulletct
    }

    /// How many mook keys have been issued so far; the next mook gets this
    /// number as its key.
    pub fn mookct(&self) -> (n: u32)
        ensures
            n == self@.mookct,
    {
        self.mookct
    }

    /// Takes the bullet with the given key off the board.
    pub fn remove_bullet(&mut self, key: u32) -> (bullet: Bullet)
        requires
            old(self)@.wf(),
            old(self)@.bullets.contains_key(key),
        ensures
            bullet == old(self)@.bullets[key],
            final(self)@ == (BoardState {
                bullets: old(self)@.bullets.remove(key),
                ..old(self)@
            }),
            final(self)@.wf(),
    {
        let taken: Option<Bullet> = self.bullets.remove(&key);
        taken.unwrap()
    }

    /// Takes the mook with the given key off the board.
    pub fn remove_mook(&mut self, key: u32) -> (mook: Mook)
        requires
            old(self)@.wf(),
            old(self)@.mooks.contains_key(key),
        ensures
            mook == old(self)@.mooks[key],
            final(self)@ == (BoardState { mooks: old(self)@.mooks.remove(key), ..old(self)@ }),
            final(self)@.wf(),
    {
        let taken: Option<Mook> = self.mooks.remove(&key);
        taken.unwrap()
    }

    /// Fires the ship's gun: the bullet that the ship fires enters the
    /// board under the next bullet key.
    pub fn fire(&mut self) -> (key: Option<u32>)
        requires
            old(self)@.wf(),
        ensures
            final(self)@ == old(self)@.with_bullet(old(self)@.ship.fired()),
            final(self)@.wf(),
            key == if old(self)@.bulletct < u32::MAX {
                Some(old(self)@.bulletct)
            } else {
                None
            },
    {
        let bullet: Bullet = self.ship.fire();
        self.spawn_bullet(bullet)
    }

    /// Adds a random mook under the next mook key: a mook of the default
    /// level at full health, somewhere in the visible field.
    pub fn add_mook(&mut self) -> (key: Option<u32>)
        requires
            old(self)@.wf(),
        ensures
            exists|px: u32, py: u32, vx: u32, vy: u32, facing: u32|
                final(self)@ == old(self)@.with_mook(
                    #[trigger] Mook::of_samples(px, py, vx, vy, facing),
                ),
            final(self)@.wf(),
            final(self)@.ship == old(self)@.ship,
            final(self)@.bullets == old(self)@.bullets,
            final(self)@.bulletct == old(self)@.bulletct,
            key == if old(self)@.mookct < u32::MAX {
                Some(old(self)@.mookct)
            } else {
                None
            },
    {
        let mook: Mook = Mook::random();
        self.spawn_mook(mook)
    }
}

impl Default for Board {
    /// The board that `Board::new` returns.
    fn default() -> (board: Board)
        ensures
            board@ == BoardState::initial(),
            board@.wf(),
    {
        Board::new()
    }
}

} // verus!
