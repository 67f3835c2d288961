//! Target selection for player units: keep a live target, otherwise pick the
//! oldest monster on the field, where age is counted in spawns and wraps with
//! the spawn counter.
use vstd::prelude::*;

verus! {

/// A monster as seen by a unit choosing a target: its entity id, the spawn
/// index it was given, and whether it is within the unit's attack range.
#[derive(Debug, Clone, Copy, PartialEq, Eq, Structural)]
pub struct TargetCandidate {
    pub entity: u64,
    pub spawn_index: u32,
    pub in_range: bool,
}

/// How many spawns ago `index` was handed out, when the spawn counter now
/// stands at `current` (counted modulo 2^32, like the counter itself).
pub open spec fn spawn_age_spec(current: u32, index: u32) -> u32 {
    if index <= current {
        (current - index) as u32
    } else {
        (current + 0x1_0000_0000 - index) as u32
    }
}

/// The age of a spawn index relative to the spawn counter `current`.
pub fn spawn_age(current: u32, index: u32) -> (age: u32)
    ensures
        age == spawn_age_spec(current, index),
{
    current.wrapping_sub(index)
}

/// Some candidate of `s` is entity `e`.
pub open spec fn has_entity(s: Seq<TargetCandidate>, e: u64) -> bool {
    exists|i: int| 0 <= i < s.len() && #[trigger] s[i].entity == e
}

/// `i` is the first position of entity `e` in `s`.
pub open spec fn is_first_with_entity(s: Seq<TargetCandidate>, e: u64, i: int) -> bool {
    &&& 0 <= i < s.len()
    &&& s[i].entity == e
    &&& forall|j: int| 0 <= j < i ==> #[trigger] s[j].entity != e
}

/// `i` holds an oldest candidate, and no later candidate is as old
/// (the pick of a maximum search that keeps the last maximum).
pub open spec fn is_last_oldest(s: Seq<TargetCandidate>, current: u32, i: int) -> bool {
    &&& 0 <= i < s.len()
    &&& forall|j: int|
        0 <= j < s.len() ==> spawn_age_spec(current, #[trigger] s[j].spawn_index)
            <= spawn_age_spec(current, s[i].spawn_index)
    &&& forall|j: int|
        i < j < s.len() ==> spawn_age_spec(current, #[trigger] s[j].spawn_index)
            < spawn_age_spec(current, s[i].spawn_index)
}

/// `i` holds an oldest candidate, and no earlier candidate is as old
/// (the pick of a maximum search that keeps the first maximum).
pub open spec fn is_first_oldest(s: Seq<TargetCandidate>, current: u32, i: int) -> bool {
    &&& 0 <= i < s.len()
    &&& forall|j: int|
        0 <= j < s.len() ==> spawn_age_spec(current, #[trigger] s[j].spawn_index)
            <= spawn_age_spec(current, s[i].spawn_index)
    &&& forall|j: int|
        0 <= j < i ==> spawn_age_spec(current, #[trigger] s[j].spawn_index) < spawn_age_spec(
            current,
            s[i].spawn_index,
        )
}

/// The entity of the oldest candidate, ties going to the last one; `None`
/// when there is no candidate.
pub open spec fn last_oldest_entity(s: Seq<TargetCandidate>, current: u32) -> Option<u64> {
    if s.len() == 0 {
        None
    } else {
        Some(s[choose|i: int| is_last_oldest(s, current, i)].entity)
    }
}

/// The entity of the oldest candidate, ties going to the first one; `None`
/// when there is no candidate.
pub open spec fn first_oldest_entity(s: Seq<TargetCandidate>, current: u32) -> Option<u64> {
    if s.len() == 0 {
        None
    } else {
        Some(s[choose|i: int| is_first_oldest(s, current, i)].entity)
    }
}

/// The target a unit holds after re-evaluation: its previous target while
/// that one is still among the candidates, otherwise the pick of `pick`.
pub open spec fn retained_or(prev: Option<u64>, s: Seq<TargetCandidate>, pick: Option<u64>) -> Option<
    u64,
> {
    match prev {
        Some(t) => if has_entity(s, t) {
            prev
        } else {
            pick
        },
        None => pick,
    }
}

/// Target re-evaluation with ties going to the last oldest candidate.
pub open spec fn resolved_target(prev: Option<u64>, s: Seq<TargetCandidate>, current: u32) -> Option<
    u64,
> {
    retained_or(prev, s, last_oldest_entity(s, current))
}

/// Whether target `t` is within range, read from its first candidate entry.
pub open spec fn target_in_range(s: Seq<TargetCandidate>, t: u64) -> bool {
    s[choose|i: int| is_first_with_entity(s, t, i)].in_range
}

/// At most one position is the last oldest candidate.
pub proof fn lemma_last_oldest_unique(s: Seq<TargetCandidate>, current: u32, i: int, k: int)
    requires
        is_last_oldest(s, current, i),
        is_last_oldest(s, current, k),
    ensures
        i == k,
{
    if i < k {
        assert(spawn_age_spec(current, s[k].spawn_index) < spawn_age_spec(
            current,
            s[i].spawn_index,
        ));
    } else if k < i {
        assert(spawn_age_spec(current, s[i].spawn_index) < spawn_age_spec(
            current,
            s[k].spawn_index,
        ));
    }
}

/// At most one position is the first oldest candidate.
pub proof fn lemma_first_oldest_unique(s: Seq<TargetCandidate>, current: u32, i: int, k: int)
    requires
        is_first_oldest(s, current, i),
        is_first_oldest(s, current, k),
    ensures
        i == k,
{
    if i < k {
        assert(spawn_age_spec(current, s[i].spawn_index) < spawn_age_spec(
            current,
            s[k].spawn_index,
        ));
    } else if k < i {
        assert(spawn_age_spec(current, s[k].spawn_index) < spawn_age_spec(
            current,
            s[i].spawn_index,
        ));
    }
}

/// At most one position is the first entry of an entity.
pub proof fn lemma_first_with_entity_unique(s: Seq<TargetCandidate>, e: u64, i: int, k: int)
    requires
        is_first_with_entity(s, e, i),
        is_first_with_entity(s, e, k),
    ensures
        i == k,
{
    if i < k {
        assert(s[i].entity == e);
    } else if k < i {
        assert(s[k].entity == e);
    }
}

/// Position of the first candidate whose entity is `e`, if any.
pub fn find_candidate(candidates: &Vec<TargetCandidate>, e: u64) -> (res: Option<usize>)
    ensures
        res is None <==> !has_entity(candidates@, e),
        res matches Some(i) ==> is_first_with_entity(candidates@, e, i as int),
        res is None ==> forall|j: int| 0 <= j < candidates@.len() ==> #[trigger] candidates@[j].entity != e,
        res matches Some(i) ==> i < candidates@.len() && candidates@[i as int].entity == e && forall|j: int|
            0 <= j < i ==> #[trigger] candidates@[j].entity != e,
{
    let mut i: usize = 0;
    while i < candidates.len()
        invariant
            i <= candidates@.len(),
            forall|j: int| 0 <= j < i ==> #[trigger] candidates@[j].entity != e,
        decreases candidates@.len() - i,
    {
        if candidates[i].entity == e {
            return Some(i);
        }
        i = i + 1;
    }
    None
}

/// Position of the oldest candidate, the last one among equally old
/// candidates; `None` when there is none.
pub fn last_oldest_index(candidates: &Vec<TargetCandidate>, current: u32) -> (res: Option<usize>)
    ensures
        res is None <==> candidates@.len() == 0,
        res matches Some(i) ==> is_last_oldest(candidates@, current, i as int),
        res matches Some(i) ==> i < candidates@.len() && (forall|j: int|
            0 <= j < candidates@.len() ==> spawn_age_spec(current, #[trigger] candidates@[j].spawn_index)
                <= spawn_age_spec(current, candidates@[i as int].spawn_index)) && (forall|j: int|
            i < j < candidates@.len() ==> spawn_age_spec(current, #[trigger] candidates@[j].spawn_index)
                < spawn_age_spec(current, candidates@[i as int].spawn_index)),
{
    if candidates.len() == 0 {
        return None;
    }
    let mut best: usize = 0;
    let mut best_age: u32 = spawn_age(current, candidates[0].spawn_index);
    let mut i: usize = 1;
    while i < candidates.len()
        invariant
            1 <= i <= candidates@.len(),
            best < i,
            best_age == spawn_age_spec(current, candidates@[best as int].spawn_index),
            forall|j: int|
                0 <= j < i ==> spawn_age_spec(current, #[trigger] candidates@[j].spawn_index)
                    <= best_age,
            forall|j: int|
                best < j < i ==> spawn_age_spec(current, #[trigger] candidates@[j].spawn_index)
                    < best_age,
        decreases candidates@.len() - i,
    {
        let age: u32 = spawn_age(current, candidates[i].spawn_index);
        if age >= best_age {
            best = i;
            best_age = age;
        }
        i = i + 1;
    }
    Some(best)
}

/// Position of the oldest candidate, the first one among equally old
/// candidates; `None` when there is none.
pub fn first_oldest_index(candidates: &Vec<TargetCandidate>, current: u32) -> (res: Option<usize>)
    ensures
        res is None <==> candidates@.len() == 0,
        res matches Some(i) ==> is_first_oldest(candidates@, current, i as int),
        res matches Some(i) ==> i < candidates@.len() && (forall|j: int|
            0 <= j < candidates@.len() ==> spawn_age_spec(current, #[trigger] candidates@[j].spawn_index)
                <= spawn_age_spec(current, candidates@[i as int].spawn_index)) && (forall|j: int|
            0 <= j < i ==> spawn_age_spec(current, #[trigger] candidates@[j].spawn_index)
                < spawn_age_spec(current, candidates@[i as int].spawn_index)),
{
    if candidates.len() == 0 {
        return None;
    }
    let mut best: usize = 0;
    let mut best_age: u32 = spawn_age(current, candidates[0].spawn_index);
    let mut i: usize = 1;
    while i < candidates.len()
        invariant
            1 <= i <= candidates@.len(),
            best < i,
            best_age == spawn_age_spec(current, candidates@[best as int].spawn_index),
            forall|j: int|
                0 <= j < i ==> spawn_age_spec(current, #[trigger] candidates@[j].spawn_index)
                    <= best_age,
            forall|j: int|
                0 <= j < best ==> spawn_age_spec(current, #[trigger] candidates@[j].spawn_index)
                    < best_age,
        decreases candidates@.len() - i,
    {
        let age: u32 = spawn_age(current, candidates[i].spawn_index);
        if age > best_age {
            best = i;
            best_age = age;
        }
        i = i + 1;
    }
    Some(best)
}

/// The target after re-evaluation: the previous target while it is still a
/// candidate, otherwise the oldest candidate (the last of equally old ones).
pub fn resolve_target(prev: Option<u64>, candidates: &Vec<TargetCandidate>, current: u32) -> (res:
    Option<u64>)
    ensures
        res == resolved_target(prev, candidates@, current),
{
    if let Some(t) = prev {
        if find_candidate(candidates, t).is_some() {
            return prev;
        }
    }
    match last_oldest_index(candidates, current) {
        None => None,
        Some(i) => {
            proof {
                let k: int = choose|k: int| is_last_oldest(candidates@, current, k);
                lemma_last_oldest_unique(candidates@, current, i as int, k);
            }
            Some(candidates[i].entity)
        },
    }
}

/// Target re-evaluation of a soldier: keep the current target while it is
/// still among the enemies, otherwise take the oldest enemy, the first of
/// equally old ones; `None` when there is no enemy.
pub fn soldier_acquire_target(
    current_target: Option<u64>,
    enemies: &Vec<TargetCandidate>,
    current_spawn_count: u32,
) -> (res: Option<u64>)
    ensures
        res == retained_or(
            current_target,
            enemies@,
            first_oldest_entity(enemies@, current_spawn_count),
        ),
{
    if let Some(t) = current_target {
        if find_candidate(enemies, t).is_some() {
            return current_target;
        }
    }
    match first_oldest_index(enemies, current_spawn_count) {
        None => None,
        Some(i) => {
            proof {
                let k: int = choose|k: int| is_first_oldest(enemies@, current_spawn_count, k);
                lemma_first_oldest_unique(enemies@, current_spawn_count, i as int, k);
            }
            Some(enemies[i].entity)
        },
    }
}

/// Whether the candidate entry of target `t` says it is within range.
fn target_is_in_range(candidates: &Vec<TargetCandidate>, t: u64) -> (res: bool)
    requires
        has_entity(candidates@, t),
    ensures
        res == target_in_range(candidates@, t),
{
    match find_candidate(candidates, t) {
        Some(i) => {
            proof {
                let k: int = choose|k: int| is_first_with_entity(candidates@, t, k);
                lemma_first_with_entity_unique(candidates@, t, i as int, k);
            }
            candidates[i].in_range
        },
        None => false,
    }
}

proof fn lemma_resolved_target_is_candidate(prev: Option<u64>, s: Seq<TargetCandidate>, current: u32)
    ensures
        resolved_target(prev, s, current) matches Some(t) ==> has_entity(s, t),
        resolved_target(prev, s, current) is None ==> s.len() == 0,
{
    if s.len() > 0 {
        lemma_last_oldest_exists(s, current);
        let k: int = choose|k: int| is_last_oldest(s, current, k);
        assert(has_entity(s, s[k].entity));
    }
}

proof fn lemma_last_oldest_exists(s: Seq<TargetCandidate>, current: u32)
    requires
        s.len() > 0,
    ensures
        exists|i: int| is_last_oldest(s, current, i),
    decreases s.len(),
{
    if s.len() == 1 {
        assert(is_last_oldest(s, current, 0));
    } else {
        let t = s.drop_last();
        lemma_last_oldest_exists(t, current);
        let k: int = choose|k: int| is_last_oldest(t, current, k);
        let n: int = s.len() - 1;
        if spawn_age_spec(current, s[n].spawn_index) >= spawn_age_spec(current, s[k].spawn_index) {
            assert forall|j: int| 0 <= j < s.len() implies spawn_age_spec(
                current,
                #[trigger] s[j].spawn_index,
            ) <= spawn_age_spec(current, s[n].spawn_index) by {
                if j < n {
                    assert(t[j] == s[j]);
                }
            }
            assert(is_last_oldest(s, current, n));
        } else {
            assert forall|j: int| 0 <= j < s.len() implies spawn_age_spec(
                current,
                #[trigger] s[j].spawn_index,
            ) <= spawn_age_spec(current, s[k].spawn_index) by {
                if j < n {
                    assert(t[j] == s[j]);
                }
            }
            assert forall|j: int| k < j < s.len() implies spawn_age_spec(
                current,
                #[trigger] s[j].spawn_index,
            ) < spawn_age_spec(current, s[k].spawn_index) by {
                if j < n {
                    assert(t[j] == s[j]);
                }
            }
            assert(is_last_oldest(s, current, k));
        }
    }
}

/// A target, once resolved, is kept: resolving again against the same
/// candidates (at any value of the spawn counter) gives the same target.
pub proof fn lemma_resolved_target_is_stable(
    prev: Option<u64>,
    s: Seq<TargetCandidate>,
    current: u32,
    later: u32,
)
    ensures
        resolved_target(resolved_target(prev, s, current), s, later) == resolved_target(
            prev,
            s,
            current,
        ),
{
    lemma_resolved_target_is_candidate(prev, s, current);
}

proof fn lemma_first_oldest_exists(s: Seq<TargetCandidate>, current: u32)
    requires
        s.len() > 0,
    ensures
        exists|i: int| is_first_oldest(s, current, i),
    decreases s.len(),
{
    if s.len() == 1 {
        assert(is_first_oldest(s, current, 0));
    } else {
        let t = s.drop_last();
        lemma_first_oldest_exists(t, current);
        let k: int = choose|k: int| is_first_oldest(t, current, k);
        let n: int = s.len() - 1;
        if spawn_age_spec(current, s[n].spawn_index) > spawn_age_spec(current, s[k].spawn_index) {
            assert forall|j: int| 0 <= j < s.len() implies spawn_age_spec(
                current,
                #[trigger] s[j].spawn_index,
            ) <= spawn_age_spec(current, s[n].spawn_index) by {
                if j < n {
                    assert(t[j] == s[j]);
                }
            }
            assert forall|j: int| 0 <= j < n implies spawn_age_spec(
                current,
                #[trigger] s[j].spawn_index,
            ) < spawn_age_spec(current, s[n].spawn_index) by {
                assert(t[j] == s[j]);
            }
            assert(is_first_oldest(s, current, n));
        } else {
            assert forall|j: int| 0 <= j < s.len() implies spawn_age_spec(
                current,
                #[trigger] s[j].spawn_index,
            ) <= spawn_age_spec(current, s[k].spawn_index) by {
                if j < n {
                    assert(t[j] == s[j]);
                }
            }
            assert forall|j: int| 0 <= j < k implies spawn_age_spec(
                current,
                #[trigger] s[j].spawn_index,
            ) < spawn_age_spec(current, s[k].spawn_index) by {
                assert(t[j] == s[j]);
            }
            assert(is_first_oldest(s, current, k));
        }
    }
}

/// The age of a spawn index is the spawn counter minus the index, taken
/// modulo 2^32.
pub proof fn law_spawn_age_is_wrapping_difference(current: u32, index: u32)
    ensures
        spawn_age_spec(current, index) as int == (current as int - index as int) % 0x1_0000_0000,
{
    let m: int = 0x1_0000_0000;
    let d: int = current as int - index as int;
    if index <= current {
        vstd::arithmetic::div_mod::lemma_small_mod(d as nat, m as nat);
    } else {
        vstd::arithmetic::div_mod::lemma_mod_add_multiples_vanish(d, m);
        vstd::arithmetic::div_mod::lemma_small_mod((d + m) as nat, m as nat);
    }
}

/// A target that is still among the candidates is kept, however old the
/// other candidates are; this holds for both tie-breaking rules.
pub proof fn law_live_target_is_kept(t: u64, s: Seq<TargetCandidate>, current: u32, i: int)
    requires
        0 <= i < s.len(),
        s[i].entity == t,
    ensures
        resolved_target(Some(t), s, current) == Some(t),
        retained_or(Some(t), s, first_oldest_entity(s, current)) == Some(t),
{
    assert(has_entity(s, t));
}

/// Without a live target, a player unit takes the candidate that is at
/// least as old as every candidate (the last one included) and strictly
/// older than every later one; with no candidate it has no target.
pub proof fn law_lost_target_goes_to_last_oldest(
    prev: Option<u64>,
    s: Seq<TargetCandidate>,
    current: u32,
)
    requires
        forall|j: int| 0 <= j < s.len() ==> prev != Some(#[trigger] s[j].entity),
    ensures
        s.len() == 0 ==> resolved_target(prev, s, current) is None,
        s.len() > 0 ==> exists|i: int|
            #![trigger s[i]]
            0 <= i < s.len() && resolved_target(prev, s, current) == Some(s[i].entity) && (forall|
                j: int,
            |
                0 <= j < s.len() ==> spawn_age_spec(current, #[trigger] s[j].spawn_index)
                    <= spawn_age_spec(current, s[i].spawn_index)) && (forall|j: int|
                i < j < s.len() ==> spawn_age_spec(current, #[trigger] s[j].spawn_index)
                    < spawn_age_spec(current, s[i].spawn_index)),
{
    if let Some(t) = prev {
        assert(!has_entity(s, t));
    }
    if s.len() > 0 {
        lemma_last_oldest_exists(s, current);
        let k: int = choose|k: int| is_last_oldest(s, current, k);
        assert(resolved_target(prev, s, current) == Some(s[k].entity));
    }
}

/// Without a live target, a soldier takes the enemy that is at least as old
/// as every enemy (the last one included) and strictly older than every
/// earlier one; with no enemy it has no target.
pub proof fn law_lost_target_goes_to_first_oldest(
    prev: Option<u64>,
    s: Seq<TargetCandidate>,
    current: u32,
)
    requires
        forall|j: int| 0 <= j < s.len() ==> prev != Some(#[trigger] s[j].entity),
    ensures
        s.len() == 0 ==> retained_or(prev, s, first_oldest_entity(s, current)) is None,
        s.len() > 0 ==> exists|i: int|
            #![trigger s[i]]
            0 <= i < s.len() && retained_or(prev, s, first_oldest_entity(s, current)) == Some(
                s[i].entity,
            ) && (forall|j: int|
                0 <= j < s.len() ==> spawn_age_spec(current, #[trigger] s[j].spawn_index)
                    <= spawn_age_spec(current, s[i].spawn_index)) && (forall|j: int|
                0 <= j < i ==> spawn_age_spec(current, #[trigger] s[j].spawn_index)
                    < spawn_age_spec(current, s[i].spawn_index)),
{
    if let Some(t) = prev {
        assert(!has_entity(s, t));
    }
    if s.len() > 0 {
        lemma_first_oldest_exists(s, current);
        let k: int = choose|k: int| is_first_oldest(s, current, k);
        assert(retained_or(prev, s, first_oldest_entity(s, current)) == Some(s[k].entity));
    }
}

/// What a player unit sets out to do this frame.
#[derive(Debug, Clone, Copy, PartialEq, Eq, Structural)]
pub enum Intent {
    /// Nothing to do: there is no monster to target.
    Idle,
    /// Close in on the given target entity.
    MoveTo(u64),
    /// Attack the given target entity, which is within range.
    Attack(u64),
}

/// The outcome of a player unit's decision step.
#[derive(Debug, Clone, Copy, PartialEq, Eq, Structural)]
pub struct NpcDecision {
    pub target: Option<u64>,
    pub intent: Intent,
}

/// The intent that follows from holding `target` among `s`.
pub open spec fn intent_for(s: Seq<TargetCandidate>, target: Option<u64>) -> Intent {
    match target {
        None => Intent::Idle,
        Some(t) => if target_in_range(s, t) {
            Intent::Attack(t)
        } else {
            Intent::MoveTo(t)
        },
    }
}

/// Decision step of a player unit: re-evaluate the target among the live
/// monsters (keeping a live target, otherwise taking the oldest), then attack
/// it when it is in range of the unit's longest weapon, or move towards it.
pub fn player_npc_decision_logic(
    current_target: Option<u64>,
    monsters: &Vec<TargetCandidate>,
    current_spawn_count: u32,
) -> (res: NpcDecision)
    ensures
        res.target == resolved_target(current_target, monsters@, current_spawn_count),
        res.intent == intent_for(monsters@, res.target),
{
    let target: Option<u64> = resolve_target(current_target, monsters, current_spawn_count);
    proof {
        lemma_resolved_target_is_candidate(current_target, monsters@, current_spawn_count);
    }
    let intent = match target {
        None => Intent::Idle,
        Some(t) => if target_is_in_range(monsters, t) {
            Intent::Attack(t)
        } else {
            Intent::MoveTo(t)
        },
    };
    NpcDecision { target, intent }
}

/// What a soldier is doing about its target.
#[derive(Debug, Clone, Copy, PartialEq, Eq, Structural)]
pub enum Engagement {
    /// No target: the soldier stays put.
    Hold,
    /// The target is out of range: the soldier walks towards it.
    Moving(u64),
    /// The target is within range: the soldier fires at it.
    Attacking(u64),
}

/// The outcome of a soldier's decision step.
#[derive(Debug, Clone, Copy, PartialEq, Eq, Structural)]
pub struct SoldierDecision {
    pub target: Option<u64>,
    /// The attack timer is set to its full duration, so that the soldier
    /// fires at a new target without waiting out the old cooldown.
    pub reset_attack_timer: bool,
    pub engagement: Engagement,
}

/// The engagement that follows from holding `target` among `s`.
pub open spec fn engagement_for(s: Seq<TargetCandidate>, target: Option<u64>) -> Engagement {
    match target {
        None => Engagement::Hold,
        Some(t) => if target_in_range(s, t) {
            Engagement::Attacking(t)
        } else {
            Engagement::Moving(t)
        },
    }
}

/// Decision step of a soldier that is neither moving nor attacking:
/// re-evaluate the target among the live enemies, prime the attack timer when
/// the target changed to a new enemy, then attack an enemy in range or move
/// towards one out of range.
pub fn soldier_decision_logic(
    current_target: Option<u64>,
    enemies: &Vec<TargetCandidate>,
    current_spawn_count: u32,
) -> (res: SoldierDecision)
    ensures
        res.target == resolved_target(current_target, enemies@, current_spawn_count),
        res.reset_attack_timer <==> (res.target is Some && res.target != current_target),
        res.engagement == engagement_for(enemies@, res.target),
{
    let target: Option<u64> = resolve_target(current_target, enemies, current_spawn_count);
    proof {
        lemma_resolved_target_is_candidate(current_target, enemies@, current_spawn_count);
    }
    let reset_attack_timer: bool = match (target, current_target) {
        (Some(t), Some(c)) => t != c,
        (Some(_), None) => true,
        (None, _) => false,
    };
    let engagement = match target {
        None => Engagement::Hold,
        Some(t) => if target_is_in_range(enemies, t) {
            Engagement::Attacking(t)
        } else {
            Engagement::Moving(t)
        },
    };
    SoldierDecision { target, reset_attack_timer, engagement }
}

/// Once the target is `t`, what the unit does depends on the range flag of
/// `t`'s own entry and on nothing else: a player unit attacks `t` exactly
/// when that entry is in range and otherwise moves to it; a soldier attacks
/// or moves likewise. Without a target the unit idles and the soldier holds.
pub proof fn law_action_follows_target_range(s: Seq<TargetCandidate>, t: u64, i: int)
    requires
        0 <= i < s.len(),
        s[i].entity == t,
        forall|j: int| 0 <= j < i ==> #[trigger] s[j].entity != t,
    ensures
        intent_for(s, Some(t)) == (if s[i].in_range {
            Intent::Attack(t)
        } else {
            Intent::MoveTo(t)
        }),
        engagement_for(s, Some(t)) == (if s[i].in_range {
            Engagement::Attacking(t)
        } else {
            Engagement::Moving(t)
        }),
        intent_for(s, None) == Intent::Idle,
        engagement_for(s, None) == Engagement::Hold,
{
    let k: int = choose|k: int| is_first_with_entity(s, t, k);
    assert(is_first_with_entity(s, t, i));
    lemma_first_with_entity_unique(s, t, i, k);
}

/// Changing the range flags of monsters other than the target leaves the
/// unit's action unchanged.
pub proof fn law_other_monsters_range_is_irrelevant(
    s: Seq<TargetCandidate>,
    s2: Seq<TargetCandidate>,
    t: u64,
    i: int,
)
    requires
        s.len() == s2.len(),
        forall|j: int| 0 <= j < s.len() ==> (#[trigger] s2[j]).entity == s[j].entity,
        forall|j: int| 0 <= j < s.len() && s[j].entity == t ==> (#[trigger] s2[j]).in_range == s[j].in_range,
        0 <= i < s.len(),
        s[i].entity == t,
    ensures
        intent_for(s2, Some(t)) == intent_for(s, Some(t)),
        engagement_for(s2, Some(t)) == engagement_for(s, Some(t)),
{
    lemma_first_entry_exists(s, t, i);
    let k: int = choose|k: int| is_first_with_entity(s, t, k);
    law_action_follows_target_range(s, t, k);
    assert forall|j: int| 0 <= j < k implies #[trigger] s2[j].entity != t by {
        assert(s2[j].entity == s[j].entity);
    }
    law_action_follows_target_range(s2, t, k);
}

proof fn lemma_first_entry_exists(s: Seq<TargetCandidate>, t: u64, i: int)
    requires
        0 <= i < s.len(),
        s[i].entity == t,
    ensures
        exists|k: int| is_first_with_entity(s, t, k),
    decreases i,
{
    if forall|j: int| 0 <= j < i ==> #[trigger] s[j].entity != t {
        assert(is_first_with_entity(s, t, i));
    } else {
        let j: int = choose|j: int| 0 <= j < i && #[trigger] s[j].entity == t;
        lemma_first_entry_exists(s, t, j);
    }
}

} // verus!
