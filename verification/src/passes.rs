//! The passes of a tick on the maps that hold the mooks and the bullets.

use std::collections::HashMap;
use vstd::prelude::*;
use crate::bullet::Bullet;
use crate::collision::{collides, hits};
use crate::mook::{Mook, MIN_LEVEL};
use crate::state::{
    breaks_under, damaged_mooks, hitters, increasing, live_bullets, live_mooks, stepped_bullets,
    stepped_mooks, strikes, unspent_bullets,
};

verus! {

broadcast use vstd::std_specs::hash::group_hash_axioms;

/// The keys of a map, each once, in no particular order.
pub(crate) fn keys_of<V>(m: &HashMap<u32, V>) -> (keys: Vec<u32>)
    ensures
        keys@.no_duplicates(),
        keys@.to_set() == m@.dom(),
        keys@.len() == m@.dom().len(),
{
    let mut keys: Vec<u32> = Vec::new();
    for k in it: m.keys()
        invariant
            keys@ =~= it.seq().unref().take(it.index() as int),
            it.seq().unref().to_set() == m@.dom(),
            it.seq().no_duplicates(),
            it.seq().len() == m@.dom().len(),
    {
        keys.push(*k);
    }
    assert(forall|s: Seq<u32>| #[trigger] s.take(s.len() as int) =~= s);
    keys
}

/// The least of the keys that are not below `floor`, if there is one.
fn least_from(keys: &Vec<u32>, floor: u32) -> (least: Option<u32>)
    ensures
        match least {
            Some(found) => keys@.contains(found) && found >= floor && forall|x: u32|
                keys@.contains(x) && x >= floor ==> found <= x,
            None => forall|x: u32| keys@.contains(x) ==> x < floor,
        },
{
    let mut least: Option<u32> = None;
    let mut i: usize = 0;
    while i < keys.len()
        invariant
            0 <= i <= keys@.len(),
            match least {
                Some(found) => keys@.contains(found) && found >= floor && forall|j: int|
                    0 <= j < i && keys@[j] >= floor ==> found <= #[trigger] keys@[j],
                None => forall|j: int| 0 <= j < i ==> #[trigger] keys@[j] < floor,
            },
        decreases keys@.len() - i,
    {
        let k: u32 = keys[i];
        let better: bool = match least {
            Some(found) => k < found,
            None => true,
        };
        if k >= floor && better {
            assert(keys@[i as int] == k);
            least = Some(k);
        }
        i = i + 1;
    }
    proof {
        match least {
            Some(found) => {
                assert forall|x: u32| keys@.contains(x) && x >= floor implies found <= x by {
                    let j = choose|j: int| 0 <= j < keys@.len() && keys@[j] == x;
                    assert(found <= keys@[j]);
                }
            },
            None => {
                assert forall|x: u32| keys@.contains(x) implies x < floor by {
                    let j = choose|j: int| 0 <= j < keys@.len() && keys@[j] == x;
                    assert(keys@[j] < floor);
                }
            },
        }
    }
    least
}

/// The keys in ascending order, each once.
pub(crate) fn sorted_keys(keys: &Vec<u32>) -> (sorted: Vec<u32>)
    ensures
        increasing(sorted@),
        forall|x: u32| sorted@.contains(x) <==> keys@.contains(x),
{
    let mut sorted: Vec<u32> = Vec::new();
    let mut next: Option<u32> = least_from(keys, 0);
    let ghost mut floor: int = 0;
    while next.is_some()
        invariant
            0 <= floor <= 0x1_0000_0000,
            increasing(sorted@),
            forall|x: u32| sorted@.contains(x) <==> keys@.contains(x) && x < floor,
            match next {
                Some(found) => keys@.contains(found) && found >= floor && forall|x: u32|
                    keys@.contains(x) && x >= floor ==> found <= x,
                None => forall|x: u32| keys@.contains(x) ==> x < floor,
            },
        decreases 0x1_0000_0000 - floor,
    {
        let found: u32 = next.unwrap();
        let ghost earlier = sorted@;
        sorted.push(found);
        proof {
            assert forall|i: int, j: int| 0 <= i < j < sorted@.len() implies sorted@[i]
                < sorted@[j] by {
                if j == earlier.len() {
                    assert(earlier.contains(earlier[i]));
                }
            }
            assert forall|x: u32| sorted@.contains(x) <==> keys@.contains(x) && x < found + 1 by {
                if sorted@.contains(x) {
                    let i = choose|i: int| 0 <= i < sorted@.len() && sorted@[i] == x;
                    if i < earlier.len() {
                        assert(earlier.contains(earlier[i]));
                    }
                }
                if keys@.contains(x) && x < found + 1 {
                    if x == found {
                        assert(sorted@[earlier.len() as int] == x);
                    } else {
                        assert(x < floor);
                        assert(earlier.contains(x));
                        let i = choose|i: int| 0 <= i < earlier.len() && earlier[i] == x;
                        assert(sorted@[i] == x);
                    }
                }
            }
            floor = found + 1;
        }
        if found == u32::MAX {
            next = None;
        } else {
            next = least_from(keys, found + 1);
        }
    }
    sorted
}

/// Whether every bullet of the map is valid and has a key below `issued`.
pub(crate) fn bullets_valid(bullets: &HashMap<u32, Bullet>, issued: u32) -> (valid: bool)
    ensures
        valid == (forall|k: u32| #[trigger]
            bullets@.contains_key(k) ==> k < issued && bullets@[k].wf()),
{
    let keys: Vec<u32> = keys_of(bullets);
    let mut i: usize = 0;
    while i < keys.len()
        invariant
            0 <= i <= keys@.len(),
            keys@.to_set() == bullets@.dom(),
            forall|j: int|
                0 <= j < i ==> (#[trigger] keys@[j]) < issued && bullets@[keys@[j]].wf(),
        decreases keys@.len() - i,
    {
        let k: u32 = keys[i];
        assert(keys@.to_set().contains(keys@[i as int]));
        let found: Option<&Bullet> = bullets.get(&k);
        if k >= issued || !found.unwrap().is_wf() {
            assert(bullets@.contains_key(k));
            return false;
        }
        i = i + 1;
    }
    assert forall|k: u32| #[trigger] bullets@.contains_key(k) implies k < issued
        && bullets@[k].wf() by {
        assert(keys@.to_set().contains(k));
        let j = choose|j: int| 0 <= j < keys@.len() && keys@[j] == k;
        assert(keys@[j] < issued);
    }
    true
}

/// Whether every mook of the map is valid and has a key below `issued`.
pub(crate) fn mooks_valid(mooks: &HashMap<u32, Mook>, issued: u32) -> (valid: bool)
    ensures
        valid == (forall|k: u32| #[trigger]
            mooks@.contains_key(k) ==> k < issued && mooks@[k].wf()),
{
    let keys: Vec<u32> = keys_of(mooks);
    let mut i: usize = 0;
    while i < keys.len()
        invariant
            0 <= i <= keys@.len(),
            keys@.to_set() == mooks@.dom(),
            forall|j: int|
                0 <= j < i ==> (#[trigger] keys@[j]) < issued && mooks@[keys@[j]].wf(),
        decreases keys@.len() - i,
    {
        let k: u32 = keys[i];
        assert(keys@.to_set().contains(keys@[i as int]));
        let found: Option<&Mook> = mooks.get(&k);
        if k >= issued || !found.unwrap().is_wf() {
            assert(mooks@.contains_key(k));
            return false;
        }
        i = i + 1;
    }
    assert forall|k: u32| #[trigger] mooks@.contains_key(k) implies k < issued
        && mooks@[k].wf() by {
        assert(keys@.to_set().contains(k));
        let j = choose|j: int| 0 <= j < keys@.len() && keys@[j] == k;
        assert(keys@[j] < issued);
    }
    true
}

/// Moves every bullet of the map by one tick.
pub(crate) fn step_bullets(bullets: &mut HashMap<u32, Bullet>)
    requires
        forall|k: u32| #[trigger] old(bullets)@.contains_key(k) ==> old(bullets)@[k].wf(),
    ensures
        final(bullets)@ == stepped_bullets(old(bullets)@),
        forall|k: u32| #[trigger] final(bullets)@.contains_key(k) ==> final(bullets)@[k].wf(),
{
    let keys: Vec<u32> = keys_of(bullets);
    let ghost before = bullets@;
    let mut i: usize = 0;
    while i < keys.len()
        invariant
            0 <= i <= keys@.len(),
            keys@.no_duplicates(),
            keys@.to_set() == before.dom(),
            bullets@.dom() == before.dom(),
            forall|k: u32| #[trigger] before.contains_key(k) ==> before[k].wf(),
            forall|j: int|
                0 <= j < i ==> bullets@[#[trigger] keys@[j]] == before[keys@[j]].stepped(),
            forall|j: int|
                i <= j < keys@.len() ==> bullets@[#[trigger] keys@[j]] == before[keys@[j]],
        decreases keys@.len() - i,
    {
        let k: u32 = keys[i];
        assert(keys@.to_set().contains(keys@[i as int]));
        let found: Option<&Bullet> = bullets.get(&k);
        let mut bullet: Bullet = *found.unwrap();
        bullet.step();
        bullets.insert(k, bullet);
        assert(bullets@.dom() =~= before.dom());
        i = i + 1;
    }
    assert(bullets@ =~= stepped_bullets(before)) by {
        assert forall|k: u32| before.contains_key(k) implies bullets@[k] == before[k].stepped() by {
            assert(keys@.to_set().contains(k));
            let j = choose|j: int| 0 <= j < keys@.len() && keys@[j] == k;
            assert(bullets@[keys@[j]] == before[keys@[j]].stepped());
        }
    }
}

/// Moves every mook of the map by one tick.
pub(crate) fn step_mooks(mooks: &mut HashMap<u32, Mook>)
    requires
        forall|k: u32| #[trigger] old(mooks)@.contains_key(k) ==> old(mooks)@[k].wf(),
    ensures
        final(mooks)@ == stepped_mooks(old(mooks)@),
        forall|k: u32| #[trigger] final(mooks)@.contains_key(k) ==> final(mooks)@[k].wf(),
{
    let keys: Vec<u32> = keys_of(mooks);
    let ghost before = mooks@;
    let mut i: usize = 0;
    while i < keys.len()
        invariant
            0 <= i <= keys@.len(),
            keys@.no_duplicates(),
            keys@.to_set() == before.dom(),
            mooks@.dom() == before.dom(),
            forall|k: u32| #[trigger] before.contains_key(k) ==> before[k].wf(),
            forall|j: int|
                0 <= j < i ==> mooks@[#[trigger] keys@[j]] == before[keys@[j]].stepped(),
            forall|j: int|
                i <= j < keys@.len() ==> mooks@[#[trigger] keys@[j]] == before[keys@[j]],
        decreases keys@.len() - i,
    {
        let k: u32 = keys[i];
        assert(keys@.to_set().contains(keys@[i as int]));
        let found: Option<&Mook> = mooks.get(&k);
        let mut mook: Mook = *found.unwrap();
        mook.step();
        mooks.insert(k, mook);
        assert(mooks@.dom() =~= before.dom());
        i = i + 1;
    }
    assert(mooks@ =~= stepped_mooks(before)) by {
        assert forall|k: u32| before.contains_key(k) implies mooks@[k] == before[k].stepped() by {
            assert(keys@.to_set().contains(k));
            let j = choose|j: int| 0 <= j < keys@.len() && keys@[j] == k;
            assert(mooks@[keys@[j]] == before[keys@[j]].stepped());
        }
    }
}

/// Removes every bullet that has left the field.
pub(crate) fn sweep_bullets(bullets: &mut HashMap<u32, Bullet>)
    requires
        forall|k: u32| #[trigger] old(bullets)@.contains_key(k) ==> old(bullets)@[k].wf(),
    ensures
        final(bullets)@ == live_bullets(old(bullets)@),
{
    let keys: Vec<u32> = keys_of(bullets);
    let ghost before = bullets@;
    let mut i: usize = 0;
    while i < keys.len()
        invariant
            0 <= i <= keys@.len(),
            keys@.no_duplicates(),
            keys@.to_set() == before.dom(),
            forall|k: u32| #[trigger] before.contains_key(k) ==> before[k].wf(),
            forall|k: u32| #[trigger]
                bullets@.contains_key(k) ==> before.contains_key(k) && bullets@[k] == before[k],
            forall|j: int|
                0 <= j < i ==> (bullets@.contains_key(#[trigger] keys@[j])
                    <==> !before[keys@[j]].expired()),
            forall|j: int| i <= j < keys@.len() ==> bullets@.contains_key(#[trigger] keys@[j]),
        decreases keys@.len() - i,
    {
        let k: u32 = keys[i];
        assert(keys@.to_set().contains(keys@[i as int]));
        let found: Option<&Bullet> = bullets.get(&k);
        let gone: bool = found.unwrap().is_expired();
        if gone {
            bullets.remove(&k);
        }
        i = i + 1;
    }
    assert(bullets@ =~= live_bullets(before)) by {
        assert forall|k: u32| before.contains_key(k) implies (bullets@.contains_key(k)
            <==> !before[k].expired()) by {
            assert(keys@.to_set().contains(k));
            let j = choose|j: int| 0 <= j < keys@.len() && keys@[j] == k;
            assert(bullets@.contains_key(keys@[j]) <==> !before[keys@[j]].expired());
        }
    }
}

/// Removes every mook that has no health left.
pub(crate) fn sweep_mooks(mooks: &mut HashMap<u32, Mook>)
    ensures
        final(mooks)@ == live_mooks(old(mooks)@),
{
    let keys: Vec<u32> = keys_of(mooks);
    let ghost before = mooks@;
    let mut i: usize = 0;
    while i < keys.len()
        invariant
            0 <= i <= keys@.len(),
            keys@.no_duplicates(),
            keys@.to_set() == before.dom(),
            forall|k: u32| #[trigger]
                mooks@.contains_key(k) ==> before.contains_key(k) && mooks@[k] == before[k],
            forall|j: int|
                0 <= j < i ==> (mooks@.contains_key(#[trigger] keys@[j])
                    <==> !before[keys@[j]].destroyed()),
            forall|j: int| i <= j < keys@.len() ==> mooks@.contains_key(#[trigger] keys@[j]),
        decreases keys@.len() - i,
    {
        let k: u32 = keys[i];
        assert(keys@.to_set().contains(keys@[i as int]));
        let found: Option<&Mook> = mooks.get(&k);
        let gone: bool = found.unwrap().is_destroyed();
        if gone {
            mooks.remove(&k);
        }
        i = i + 1;
    }
    assert(mooks@ =~= live_mooks(before)) by {
        assert forall|k: u32| before.contains_key(k) implies (mooks@.contains_key(k)
            <==> !before[k].destroyed()) by {
            assert(keys@.to_set().contains(k));
            let j = choose|j: int| 0 <= j < keys@.len() && keys@[j] == k;
            assert(mooks@.contains_key(keys@[j]) <==> !before[keys@[j]].destroyed());
        }
    }
}

/// Among the first `j + 1` of distinct keys, those that satisfy `pred` are
/// those among the first `j` that do, and the next key if it does.
proof fn lemma_count_next(keys: Seq<u32>, j: int, pred: spec_fn(u32) -> bool)
    requires
        keys.no_duplicates(),
        0 <= j < keys.len(),
    ensures
        keys.take(j).to_set().filter(pred).finite(),
        keys.take(j + 1).to_set().filter(pred).finite(),
        keys.take(j + 1).to_set().filter(pred).len() == keys.take(j).to_set().filter(pred).len()
            + if pred(keys[j]) {
            1nat
        } else {
            0nat
        },
{
    let shorter = keys.take(j);
    let longer = keys.take(j + 1);
    let before = shorter.to_set();
    let after = longer.to_set();
    vstd::seq_lib::seq_to_set_is_finite(shorter);
    vstd::seq_lib::seq_to_set_is_finite(longer);
    before.lemma_len_filter(pred);
    after.lemma_len_filter(pred);
    assert(!before.contains(keys[j])) by {
        if before.contains(keys[j]) {
            let i = choose|i: int| 0 <= i < shorter.len() && shorter[i] == keys[j];
            assert(keys[i] == keys[j]);
        }
    }
    assert(after =~= before.insert(keys[j])) by {
        assert forall|k: u32| after.contains(k) implies before.insert(keys[j]).contains(k) by {
            let i = choose|i: int| 0 <= i < longer.len() && longer[i] == k;
            if i < j {
                assert(shorter[i] == k);
            }
        }
        assert forall|k: u32| before.insert(keys[j]).contains(k) implies after.contains(k) by {
            if k == keys[j] {
                assert(longer[j] == k);
            } else {
                let i = choose|i: int| 0 <= i < shorter.len() && shorter[i] == k;
                assert(longer[i] == k);
            }
        }
    }
    if pred(keys[j]) {
        assert(after.filter(pred) =~= before.filter(pred).insert(keys[j]));
    } else {
        assert(after.filter(pred) =~= before.filter(pred));
    }
}

/// The mook after it took the damage of every bullet of the map that hits
/// it.
pub(crate) fn damage_from(
    mook: Mook,
    bullets: &HashMap<u32, Bullet>,
    keys: &Vec<u32>,
) -> (after: Mook)
    requires
        mook.wf(),
        keys@.no_duplicates(),
        keys@.to_set() == bullets@.dom(),
        forall|k: u32| #[trigger] bullets@.contains_key(k) ==> bullets@[k].wf(),
    ensures
        after == mook.damaged(hitters(mook, bullets@).len()),
        after.wf(),
{
    let ghost pred = |bk: u32| collides(mook, bullets@[bk]);
    let ghost mut count: nat = 0;
    let mut current: Mook = mook;
    let mut j: usize = 0;
    assert(keys@.take(0).to_set() =~= Set::<u32>::empty());
    assert(keys@.take(0).to_set().filter(pred) =~= Set::<u32>::empty());
    while j < keys.len()
        invariant
            0 <= j <= keys@.len(),
            mook.wf(),
            keys@.no_duplicates(),
            keys@.to_set() == bullets@.dom(),
            forall|k: u32| #[trigger] bullets@.contains_key(k) ==> bullets@[k].wf(),
            pred == |bk: u32| collides(mook, bullets@[bk]),
            count == keys@.take(j as int).to_set().filter(pred).len(),
            current == mook.damaged(count),
            current.wf(),
        decreases keys@.len() - j,
    {
        let bk: u32 = keys[j];
        assert(keys@.to_set().contains(keys@[j as int]));
        let found: Option<&Bullet> = bullets.get(&bk);
        let bullet: &Bullet = found.unwrap();
        proof {
            lemma_count_next(keys@, j as int, pred);
        }
        if hits(&current, bullet) {
            current.take_hit();
            proof {
                crate::mook::lemma_health_after_one_more(mook.health as int, count);
                count = count + 1;
            }
        }
        j = j + 1;
    }
    assert(keys@.take(keys@.len() as int) =~= keys@);
    assert(keys@.to_set().filter(pred) =~= hitters(mook, bullets@));
    current
}

/// Whether `bullet` hits any mook of the map.
pub(crate) fn struck_by_any(
    bullet: &Bullet,
    mooks: &HashMap<u32, Mook>,
    keys: &Vec<u32>,
) -> (struck: bool)
    requires
        bullet.wf(),
        keys@.to_set() == mooks@.dom(),
        forall|k: u32| #[trigger] mooks@.contains_key(k) ==> mooks@[k].wf(),
    ensures
        struck == strikes(*bullet, mooks@),
{
    let mut j: usize = 0;
    while j < keys.len()
        invariant
            0 <= j <= keys@.len(),
            bullet.wf(),
            keys@.to_set() == mooks@.dom(),
            forall|k: u32| #[trigger] mooks@.contains_key(k) ==> mooks@[k].wf(),
            forall|i: int| 0 <= i < j ==> !collides(mooks@[#[trigger] keys@[i]], *bullet),
        decreases keys@.len() - j,
    {
        let mk: u32 = keys[j];
        assert(keys@.to_set().contains(keys@[j as int]));
        let found: Option<&Mook> = mooks.get(&mk);
        if hits(found.unwrap(), bullet) {
            return true;
        }
        j = j + 1;
    }
    assert(!strikes(*bullet, mooks@)) by {
        assert forall|mk: u32| mooks@.contains_key(mk) implies !collides(
            #[trigger] mooks@[mk],
            *bullet,
        ) by {
            assert(keys@.to_set().contains(mk));
            let i = choose|i: int| 0 <= i < keys@.len() && keys@[i] == mk;
            assert(!collides(mooks@[keys@[i]], *bullet));
        }
    }
    false
}

/// Lets every mook take the damage of the bullets that hit it, and returns
/// the keys of the mooks that break in two, each once.
pub(crate) fn damage_mooks(
    mooks: &mut HashMap<u32, Mook>,
    bullets: &HashMap<u32, Bullet>,
) -> (broken: Vec<u32>)
    requires
        forall|k: u32| #[trigger] old(mooks)@.contains_key(k) ==> old(mooks)@[k].wf(),
        forall|k: u32| #[trigger] bullets@.contains_key(k) ==> bullets@[k].wf(),
    ensures
        final(mooks)@ == damaged_mooks(old(mooks)@, bullets@),
        forall|k: u32| #[trigger] final(mooks)@.contains_key(k) ==> final(mooks)@[k].wf(),
        broken@.no_duplicates(),
        forall|k: u32|
            broken@.contains(k) <==> old(mooks)@.contains_key(k) && breaks_under(
                old(mooks)@[k],
                bullets@,
            ),
{
    let keys: Vec<u32> = keys_of(mooks);
    let bullet_keys: Vec<u32> = keys_of(bullets);
    let ghost before = mooks@;
    let mut broken: Vec<u32> = Vec::new();
    let mut i: usize = 0;
    while i < keys.len()
        invariant
            0 <= i <= keys@.len(),
            keys@.no_duplicates(),
            keys@.to_set() == before.dom(),
            bullet_keys@.no_duplicates(),
            bullet_keys@.to_set() == bullets@.dom(),
            mooks@.dom() == before.dom(),
            forall|k: u32| #[trigger] before.contains_key(k) ==> before[k].wf(),
            forall|k: u32| #[trigger] bullets@.contains_key(k) ==> bullets@[k].wf(),
            forall|j: int|
                0 <= j < i ==> mooks@[#[trigger] keys@[j]] == before[keys@[j]].damaged(
                    hitters(before[keys@[j]], bullets@).len(),
                ),
            forall|j: int|
                i <= j < keys@.len() ==> mooks@[#[trigger] keys@[j]] == before[keys@[j]],
            forall|k: u32| #[trigger] mooks@.contains_key(k) ==> mooks@[k].wf(),
            broken@.no_duplicates(),
            forall|x: int|
                0 <= x < broken@.len() ==> before.contains_key(#[trigger] broken@[x])
                    && breaks_under(before[broken@[x]], bullets@) && exists|j: int|
                    0 <= j < i && keys@[j] == broken@[x],
            forall|j: int|
                0 <= j < i && breaks_under(before[#[trigger] keys@[j]], bullets@)
                    ==> broken@.contains(keys@[j]),
        decreases keys@.len() - i,
    {
        let k: u32 = keys[i];
        assert(keys@.to_set().contains(keys@[i as int]));
        let found: Option<&Mook> = mooks.get(&k);
        let mook: Mook = *found.unwrap();
        let after: Mook = damage_from(mook, bullets, &bullet_keys);
        mooks.insert(k, after);
        assert(mooks@.dom() =~= before.dom());
        let ghost earlier = broken@;
        if !mook.is_destroyed() && after.is_destroyed() && mook.level > MIN_LEVEL {
            broken.push(k);
            assert(broken@.no_duplicates()) by {
                assert forall|x: int| 0 <= x < earlier.len() implies earlier[x] != k by {
                    let j = choose|j: int| 0 <= j < i && keys@[j] == earlier[x];
                }
            }
            assert(broken@[earlier.len() as int] == k);
        }
        assert forall|x: int| 0 <= x < broken@.len() implies exists|j: int|
            0 <= j < i + 1 && keys@[j] == #[trigger] broken@[x] by {
            if x < earlier.len() {
                let j = choose|j: int| 0 <= j < i && keys@[j] == earlier[x];
                assert(keys@[j] == broken@[x]);
            } else {
                assert(keys@[i as int] == broken@[x]);
            }
        }
        assert forall|j: int|
            0 <= j < i + 1 && breaks_under(
                before[#[trigger] keys@[j]],
                bullets@,
            ) implies broken@.contains(keys@[j]) by {
            if j < i {
                assert(earlier.contains(keys@[j]));
                let x = choose|x: int| 0 <= x < earlier.len() && earlier[x] == keys@[j];
                assert(broken@[x] == keys@[j]);
            } else {
                assert(broken@[earlier.len() as int] == keys@[j]);
            }
        }
        i = i + 1;
    }
    assert(mooks@ =~= damaged_mooks(before, bullets@)) by {
        assert forall|k: u32| before.contains_key(k) implies mooks@[k] == before[k].damaged(
            hitters(before[k], bullets@).len(),
        ) by {
            assert(keys@.to_set().contains(k));
            let j = choose|j: int| 0 <= j < keys@.len() && keys@[j] == k;
            assert(mooks@[keys@[j]] == before[keys@[j]].damaged(
                hitters(before[keys@[j]], bullets@).len(),
            ));
        }
    }
    assert forall|k: u32| before.contains_key(k) && breaks_under(
        before[k],
        bullets@,
    ) implies broken@.contains(k) by {
        assert(keys@.to_set().contains(k));
        let j = choose|j: int| 0 <= j < keys@.len() && keys@[j] == k;
        assert(broken@.contains(keys@[j]));
    }
    broken
}

/// Removes every bullet that hits a mook.
pub(crate) fn remove_spent(bullets: &mut HashMap<u32, Bullet>, mooks: &HashMap<u32, Mook>)
    requires
        forall|k: u32| #[trigger] old(bullets)@.contains_key(k) ==> old(bullets)@[k].wf(),
        forall|k: u32| #[trigger] mooks@.contains_key(k) ==> mooks@[k].wf(),
    ensures
        final(bullets)@ == unspent_bullets(old(bullets)@, mooks@),
{
    let keys: Vec<u32> = keys_of(bullets);
    let mook_keys: Vec<u32> = keys_of(mooks);
    let ghost before = bullets@;
    let mut i: usize = 0;
    while i < keys.len()
        invariant
            0 <= i <= keys@.len(),
            keys@.no_duplicates(),
            keys@.to_set() == before.dom(),
            mook_keys@.to_set() == mooks@.dom(),
            forall|k: u32| #[trigger] before.contains_key(k) ==> before[k].wf(),
            forall|k: u32| #[trigger] mooks@.contains_key(k) ==> mooks@[k].wf(),
            forall|k: u32| #[trigger]
                bullets@.contains_key(k) ==> before.contains_key(k) && bullets@[k] == before[k],
            forall|j: int|
                0 <= j < i ==> (bullets@.contains_key(#[trigger] keys@[j]) <==> !strikes(
                    before[keys@[j]],
                    mooks@,
                )),
            forall|j: int| i <= j < keys@.len() ==> bullets@.contains_key(#[trigger] keys@[j]),
        decreases keys@.len() - i,
    {
        let k: u32 = keys[i];
        assert(keys@.to_set().contains(keys@[i as int]));
        let found: Option<&Bullet> = bullets.get(&k);
        let spent: bool = struck_by_any(found.unwrap(), mooks, &mook_keys);
        if spent {
            bullets.remove(&k);
        }
        i = i + 1;
    }
    assert(bullets@ =~= unspent_bullets(before, mooks@)) by {
        assert forall|k: u32| before.contains_key(k) implies (bullets@.contains_key(k)
            <==> !strikes(before[k], mooks@)) by {
            assert(keys@.to_set().contains(k));
            let j = choose|j: int| 0 <= j < keys@.len() && keys@[j] == k;
            assert(bullets@.contains_key(keys@[j]) <==> !strikes(before[keys@[j]], mooks@));
        }
    }
}

} // verus!
