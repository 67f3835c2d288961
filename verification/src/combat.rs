//! Which weapons strike in a frame, and which monster a projectile hits.
use crate::targeting::Intent;
use vstd::prelude::*;

verus! {

/// A weapon of a unit: its entity id, and whether its cooldown has run out.
#[derive(Debug, Clone, Copy, PartialEq, Eq, Structural)]
pub struct WeaponReadiness {
    pub weapon: u64,
    pub ready: bool,
}

/// The ready weapons of `s`, in order.
pub open spec fn ready_weapons(s: Seq<WeaponReadiness>) -> Seq<u64>
    decreases s.len(),
{
    if s.len() == 0 {
        Seq::empty()
    } else {
        let rest = ready_weapons(s.drop_last());
        if s.last().ready {
            rest.push(s.last().weapon)
        } else {
            rest
        }
    }
}

/// The firing weapons are exactly the ready ones, each once, in list order:
/// the list keeps the weapons whose own cooldown has run out and drops the
/// others.
pub proof fn law_ready_weapons_are_the_ready_ones(s: Seq<WeaponReadiness>)
    ensures
        ready_weapons(s) == s.filter(|w: WeaponReadiness| w.ready).map_values(
            |w: WeaponReadiness| w.weapon,
        ),
    decreases s.len(),
{
    reveal(Seq::filter);
    let p = |w: WeaponReadiness| w.ready;
    let f = |w: WeaponReadiness| w.weapon;
    if s.len() > 0 {
        law_ready_weapons_are_the_ready_ones(s.drop_last());
        let sub = s.drop_last().filter(p);
        if s.last().ready {
            assert(sub.push(s.last()).map_values(f) =~= sub.map_values(f).push(s.last().weapon));
        }
    } else {
        assert(s.filter(p).map_values(f) =~= Seq::<u64>::empty());
    }
}

/// Every ready weapon fires.
pub proof fn law_every_ready_weapon_fires(s: Seq<WeaponReadiness>, i: int)
    requires
        0 <= i < s.len(),
        s[i].ready,
    ensures
        ready_weapons(s).contains(s[i].weapon),
    decreases s.len(),
{
    let n: int = s.len() - 1;
    if i == n {
        assert(ready_weapons(s)[ready_weapons(s).len() - 1] == s[i].weapon);
    } else {
        assert(s.drop_last()[i] == s[i]);
        law_every_ready_weapon_fires(s.drop_last(), i);
        let k: int = choose|k: int|
            0 <= k < ready_weapons(s.drop_last()).len() && ready_weapons(s.drop_last())[k]
                == s[i].weapon;
        assert(ready_weapons(s)[k] == s[i].weapon);
    }
}

/// As many weapons fire as there are ready weapons, and no weapon that is
/// still cooling down fires.
pub proof fn law_fired_count_is_ready_count(s: Seq<WeaponReadiness>)
    ensures
        ready_weapons(s).len() == s.filter(|w: WeaponReadiness| w.ready).len(),
        forall|i: int|
            0 <= i < s.len() && !s[i].ready && (forall|j: int|
                0 <= j < s.len() && #[trigger] s[j].weapon == s[i].weapon ==> !s[j].ready)
                ==> !ready_weapons(s).contains(#[trigger] s[i].weapon),
{
    law_ready_weapons_are_the_ready_ones(s);
    let p = |w: WeaponReadiness| w.ready;
    let f = |w: WeaponReadiness| w.weapon;
    assert forall|i: int|
        0 <= i < s.len() && !s[i].ready && (forall|j: int|
            0 <= j < s.len() && #[trigger] s[j].weapon == s[i].weapon ==> !s[j].ready)
        implies !ready_weapons(s).contains(#[trigger] s[i].weapon) by {
        if ready_weapons(s).contains(s[i].weapon) {
            let k: int = choose|k: int|
                0 <= k < ready_weapons(s).len() && ready_weapons(s)[k] == s[i].weapon;
            let w = s.filter(p)[k];
            s.lemma_filter_pred(p, k);
            s.lemma_filter_contains_rev(p, w);
            let j: int = choose|j: int| 0 <= j < s.len() && s[j] == w;
            assert(s[j].weapon == s[i].weapon);
        }
    }
}

/// The weapons that strike this frame: none unless the unit intends to
/// attack; otherwise every weapon whose cooldown has run out, in order.
/// Each of them hits the attacked target once and restarts its cooldown.
pub fn weapons_to_fire(intent: Intent, weapons: &Vec<WeaponReadiness>) -> (res: Vec<u64>)
    ensures
        intent is Attack ==> res@ == ready_weapons(weapons@),
        !(intent is Attack) ==> res@.len() == 0,
{
    let mut res: Vec<u64> = Vec::new();
    if let Intent::Attack(_) = intent {
        let mut i: usize = 0;
        while i < weapons.len()
            invariant
                i <= weapons@.len(),
                res@ == ready_weapons(weapons@.take(i as int)),
            decreases weapons@.len() - i,
        {
            assert(weapons@.take(i + 1).drop_last() =~= weapons@.take(i as int));
            if weapons[i].ready {
                res.push(weapons[i].weapon);
            }
            i = i + 1;
        }
        assert(weapons@.take(weapons@.len() as int) =~= weapons@);
    }
    res
}

/// A monster as seen by a flying projectile: its entity id, and whether it
/// is close enough to be hit.
#[derive(Debug, Clone, Copy, PartialEq, Eq, Structural)]
pub struct CollisionCheck {
    pub entity: u64,
    pub touching: bool,
}

/// `i` is the first touching monster of `s`.
pub open spec fn is_first_touching(s: Seq<CollisionCheck>, i: int) -> bool {
    &&& 0 <= i < s.len()
    &&& s[i].touching
    &&& forall|j: int| 0 <= j < i ==> !#[trigger] s[j].touching
}

/// The monster a projectile hits: the first one it touches. A projectile
/// hits at most one monster; `None` when it touches none.
pub fn projectile_hit(monsters: &Vec<CollisionCheck>) -> (res: Option<u64>)
    ensures
        res is None <==> forall|j: int| 0 <= j < monsters@.len() ==> !#[trigger] monsters@[j].touching,
        res matches Some(e) ==> exists|i: int| is_first_touching(monsters@, i) && monsters@[i].entity == e,
        res matches Some(e) ==> exists|i: int|
            #![trigger monsters@[i]]
            0 <= i < monsters@.len() && monsters@[i].touching && monsters@[i].entity == e && forall|
                j: int,
            | 0 <= j < i ==> !#[trigger] monsters@[j].touching,
{
    let mut i: usize = 0;
    while i < monsters.len()
        invariant
            i <= monsters@.len(),
            forall|j: int| 0 <= j < i ==> !#[trigger] monsters@[j].touching,
        decreases monsters@.len() - i,
    {
        if monsters[i].touching {
            assert(is_first_touching(monsters@, i as int));
            assert(monsters@[i as int] == monsters@[i as int]);
            return Some(monsters[i].entity);
        }
        i = i + 1;
    }
    None
}

} // verus!
