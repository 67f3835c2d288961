//! Portal bookkeeping: its unlocked and active levels, the spawn counter that
//! numbers monsters, the lookup of its upgrade slots, and when a finished
//! spawn timer turns into a spawn request.
use crate::targeting::spawn_age_spec;
use vstd::prelude::*;

verus! {

/// Name of the upgrade slot that bounds how many monsters may be alive.
pub const CAPACITY_SLOT: &'static str = "Capacity";

/// Name of the upgrade slot that adds lifetime to every spawned monster.
pub const LIFETIME_SLOT: &'static str = "Lifetime";

/// The portal's level: the highest level bought so far, and the level the
/// portal currently runs at.
#[derive(Debug, Clone, Copy, PartialEq, Eq, Structural)]
pub struct PortalLevel {
    pub active: u32,
    pub max_unlocked: u32,
}

impl Default for PortalLevel {
    fn default() -> (p: Self)
        ensures
            p.active == 0,
            p.max_unlocked == 0,
    {
        PortalLevel { active: 0, max_unlocked: 0 }
    }
}

/// The value of a `u32` reinterpreted as an `i32` (two's complement).
pub open spec fn as_signed(v: u32) -> int {
    if v <= 0x7fff_ffff {
        v as int
    } else {
        v as int - 0x1_0000_0000
    }
}

/// `v` clamped into `[1, max]`.
pub open spec fn clamp_level(v: int, max: int) -> int {
    if v < 1 {
        1
    } else if v > max {
        max
    } else {
        v
    }
}

impl PortalLevel {
    /// The active level never exceeds the highest unlocked level.
    pub open spec fn wf(self) -> bool {
        self.active <= self.max_unlocked
    }

    /// The active level the portal moves to on a request to shift it by `change`.
    pub open spec fn changed_active(self, change: i32) -> int {
        clamp_level(as_signed(self.active) + change, self.max_unlocked as int)
    }

    /// Shifts the active level by `change`, clamped to `[1, max_unlocked]`.
    /// Returns whether the active level changed, in which case the spawn
    /// interval is due for recalculation.
    pub fn change_active_level(&mut self, change: i32) -> (changed: bool)
        requires
            1 <= old(self).max_unlocked <= 0x7fff_ffff,
            i32::MIN <= as_signed(old(self).active) + change <= i32::MAX,
        ensures
            final(self).max_unlocked == old(self).max_unlocked,
            final(self).active == old(self).changed_active(change),
            changed <==> final(self).active != old(self).active,
            1 <= final(self).active <= final(self).max_unlocked,
            final(self).wf(),
    {
        let signed: i64 = if self.active <= 0x7fff_ffff {
            self.active as i64
        } else {
            self.active as i64 - 0x1_0000_0000
        };
        let target: i64 = signed + change as i64;
        let max: i64 = self.max_unlocked as i64;
        let clamped: i64 = if target < 1 {
            1
        } else if target > max {
            max
        } else {
            target
        };
        let new_level: u32 = clamped as u32;
        if new_level != self.active {
            self.active = new_level;
            true
        } else {
            false
        }
    }

    /// Unlocks the next level after a paid upgrade, and snaps the active
    /// level to it.
    pub fn unlock_next_level(&mut self)
        requires
            old(self).max_unlocked < u32::MAX,
        ensures
            final(self).max_unlocked == old(self).max_unlocked + 1,
            final(self).active == final(self).max_unlocked,
            final(self).wf(),
    {
        self.max_unlocked = self.max_unlocked + 1;
        self.active = self.max_unlocked;
    }
}

/// The portal's spawn counter: the index handed to the next spawned monster.
#[derive(Debug, Clone, Copy, PartialEq, Eq, Structural)]
pub struct PortalSpawnTracker(pub u32);

impl Default for PortalSpawnTracker {
    fn default() -> (t: Self)
        ensures
            t.0 == 0,
    {
        PortalSpawnTracker(0)
    }
}

/// The counter value after `v`, wrapping from `u32::MAX` to 0.
pub open spec fn next_counter(v: u32) -> u32 {
    if v == u32::MAX {
        0
    } else {
        (v + 1) as u32
    }
}

/// The spawn index handed out `step` spawns after the counter stood at `start`.
pub open spec fn issued_index(start: u32, step: nat) -> u32 {
    ((start + step) % 0x1_0000_0000) as u32
}

impl PortalSpawnTracker {
    /// Hands out the current spawn index and advances the counter, wrapping
    /// around at `u32::MAX`.
    pub fn next_spawn_index(&mut self) -> (index: u32)
        ensures
            index == old(self).0,
            final(self).0 == next_counter(old(self).0),
    {
        let index: u32 = self.0;
        self.0 = self.0.wrapping_add(1);
        index
    }
}

/// One step of the counter moves the issued index one step further.
pub proof fn lemma_issued_index_step(start: u32, step: nat)
    ensures
        issued_index(start, step + 1) == next_counter(issued_index(start, step)),
        issued_index(start, 0) == start,
{
    let m: int = 0x1_0000_0000;
    let a: int = start + step;
    vstd::arithmetic::div_mod::lemma_fundamental_div_mod(a, m);
    vstd::arithmetic::div_mod::lemma_fundamental_div_mod(a + 1, m);
    vstd::arithmetic::div_mod::lemma_small_mod(start as nat, m as nat);
    let q: int = a / m;
    let r: int = a % m;
    if r == m - 1 {
        vstd::arithmetic::div_mod::lemma_mod_multiples_vanish(q + 1, 0, m);
        assert((a + 1) == (q + 1) * m) by (nonlinear_arith)
            requires
                a == q * m + r,
                r == m - 1,
        ;
        vstd::arithmetic::div_mod::lemma_mod_multiples_basic(q + 1, m);
    } else {
        assert(a + 1 == q * m + (r + 1));
        vstd::arithmetic::div_mod::lemma_mod_add_multiples_vanish(r + 1, m);
        vstd::arithmetic::div_mod::lemma_mod_multiples_vanish(q, r + 1, m);
        vstd::arithmetic::div_mod::lemma_small_mod((r + 1) as nat, m as nat);
    }
}

/// Spawn order is age order, also across the wrap of the counter: with the
/// counter advanced `n` times from `start`, the index issued at step `i` is
/// `n - i` spawns old, so an earlier spawn is strictly older than a later
/// one, as long as fewer than 2^32 spawns separate the earlier one from now.
pub proof fn lemma_spawn_order_is_age_order(start: u32, i: nat, j: nat, n: nat)
    requires
        i < j <= n,
        n - i < 0x1_0000_0000,
    ensures
        spawn_age_spec(issued_index(start, n), issued_index(start, i)) == n - i,
        spawn_age_spec(issued_index(start, n), issued_index(start, j)) == n - j,
        spawn_age_spec(issued_index(start, n), issued_index(start, i)) > spawn_age_spec(
            issued_index(start, n),
            issued_index(start, j),
        ),
{
    lemma_age_of_issued(start, i, n);
    lemma_age_of_issued(start, j, n);
}

proof fn lemma_age_of_issued(start: u32, i: nat, n: nat)
    requires
        i <= n,
        n - i < 0x1_0000_0000,
    ensures
        spawn_age_spec(issued_index(start, n), issued_index(start, i)) == n - i,
{
    let m: int = 0x1_0000_0000;
    let a: int = start + i;
    let b: int = start + n;
    vstd::arithmetic::div_mod::lemma_fundamental_div_mod(a, m);
    vstd::arithmetic::div_mod::lemma_fundamental_div_mod(b, m);
    let qa: int = a / m;
    let ra: int = a % m;
    let qb: int = b / m;
    let rb: int = b % m;
    assert(0 <= b - a < m);
    assert(qa <= qb <= qa + 1) by (nonlinear_arith)
        requires
            a == qa * m + ra,
            b == qb * m + rb,
            0 <= ra < m,
            0 <= rb < m,
            0 <= b - a < m,
            m > 0,
    ;
    if qb == qa {
        assert(b - a == rb - ra) by (nonlinear_arith)
            requires
                a == qa * m + ra,
                b == qb * m + rb,
                qb == qa,
        ;
    } else {
        assert(b - a == rb + m - ra) by (nonlinear_arith)
            requires
                a == qa * m + ra,
                b == qb * m + rb,
                qb == qa + 1,
        ;
    }
}

/// `as_signed` is the two's complement reading of a `u32`: the one value in
/// the `i32` range that is congruent to it modulo 2^32.
pub proof fn law_signed_reading(v: u32)
    ensures
        i32::MIN <= as_signed(v) <= i32::MAX,
        (as_signed(v) - v as int) % 0x1_0000_0000 == 0,
        v <= i32::MAX ==> as_signed(v) == v,
{
    let m: int = 0x1_0000_0000;
    if v > 0x7fff_ffff {
        vstd::arithmetic::div_mod::lemma_mod_multiples_basic(-1, m);
        assert(as_signed(v) - v as int == -1 * m);
    }
}

/// An active-level change moves the active level by exactly `change` when
/// that stays within `[1, max_unlocked]`; a level that would fall below 1
/// becomes 1, and one that would pass `max_unlocked` becomes `max_unlocked`.
pub proof fn law_active_change_is_a_clamped_step(level: PortalLevel, change: i32)
    requires
        1 <= level.max_unlocked,
    ensures
        1 <= as_signed(level.active) + change <= level.max_unlocked ==> level.changed_active(change)
            == as_signed(level.active) + change,
        as_signed(level.active) + change < 1 ==> level.changed_active(change) == 1,
        as_signed(level.active) + change > level.max_unlocked ==> level.changed_active(change)
            == level.max_unlocked,
        level.active <= i32::MAX && 1 <= level.active + change <= level.max_unlocked
            ==> level.changed_active(change) == level.active + change,
{
    law_signed_reading(level.active);
}

/// The counter after `v` is `v + 1` modulo 2^32.
pub proof fn law_next_counter_is_wrapping_increment(v: u32)
    ensures
        next_counter(v) as int == (v as int + 1) % 0x1_0000_0000,
{
    let m: int = 0x1_0000_0000;
    if v == u32::MAX {
        vstd::arithmetic::div_mod::lemma_mod_self_0(m);
    } else {
        vstd::arithmetic::div_mod::lemma_small_mod((v + 1) as nat, m as nat);
    }
}

/// A named upgrade attached to the portal.
#[derive(Debug, Clone, PartialEq)]
pub struct UpgradeSlot {
    pub name: String,
}

/// `i` is the first slot named `name`.
pub open spec fn is_first_slot_named(slots: Seq<UpgradeSlot>, name: Seq<char>, i: int) -> bool {
    &&& 0 <= i < slots.len()
    &&& slots[i].name@ == name
    &&& forall|j: int| 0 <= j < i ==> #[trigger] slots[j].name@ != name
}

/// Position of the first upgrade slot called `name`, if there is one.
pub fn find_upgrade_slot(slots: &Vec<UpgradeSlot>, name: &String) -> (res: Option<usize>)
    ensures
        res is None <==> forall|j: int| 0 <= j < slots@.len() ==> #[trigger] slots@[j].name@ != name@,
        res matches Some(i) ==> is_first_slot_named(slots@, name@, i as int),
        res matches Some(i) ==> i < slots@.len() && slots@[i as int].name@ == name@ && forall|j: int|
            0 <= j < i ==> #[trigger] slots@[j].name@ != name@,
{
    let mut i: usize = 0;
    while i < slots.len()
        invariant
            i <= slots@.len(),
            forall|j: int| 0 <= j < i ==> #[trigger] slots@[j].name@ != name@,
        decreases slots@.len() - i,
    {
        if slots[i].name == *name {
            return Some(i);
        }
        i = i + 1;
    }
    None
}

/// What a portal does when its spawn timer finishes.
#[derive(Debug, Clone, Copy, PartialEq, Eq, Structural)]
pub enum TickOutcome {
    /// No monster kind is loaded: nothing can be spawned.
    NoMonstersAvailable,
    /// The portal has no capacity upgrade slot: nothing is spawned.
    NoCapacitySlot,
    /// As many monsters are alive as the capacity allows.
    AtCapacity,
    /// A monster is to be spawned from this portal.
    RequestSpawn,
}

/// The decision of a portal whose spawn timer just finished, given whether
/// any monster kind is loaded, the capacity read from its capacity slot (if
/// it has one) and the number of monsters alive.
pub fn portal_tick_decision(
    monsters_available: bool,
    capacity: Option<usize>,
    current_monster_count: usize,
) -> (res: TickOutcome)
    ensures
        !monsters_available ==> res == TickOutcome::NoMonstersAvailable,
        monsters_available && capacity is None ==> res == TickOutcome::NoCapacitySlot,
        (capacity matches Some(c) ==> (monsters_available ==> (res == TickOutcome::RequestSpawn
            <==> current_monster_count < c))),
        (capacity matches Some(c) ==> (monsters_available ==> (res == TickOutcome::AtCapacity
            <==> current_monster_count >= c))),
{
    if !monsters_available {
        TickOutcome::NoMonstersAvailable
    } else {
        match capacity {
            None => TickOutcome::NoCapacitySlot,
            Some(c) => if current_monster_count < c {
                TickOutcome::RequestSpawn
            } else {
                TickOutcome::AtCapacity
            },
        }
    }
}

} // verus!
