//! Level-gated requirements: a condition on a level, and a value that is
//! available only while the condition holds.
use vstd::prelude::*;

verus! {

/// When a requirement is met, as a function of the current level.
#[derive(Debug, Clone, Copy, PartialEq, Eq, Structural)]
pub enum Condition {
    /// The requirement is always satisfied, regardless of the level.
    Always,
    /// Satisfied if the current level is greater than or equal to the specified minimum.
    MinLevel(u32),
    /// Satisfied if the current level is within the inclusive range [min, max].
    LevelRange(u32, u32),
    /// Satisfied periodically. The level must be at least the `offset`,
    /// and `(current_level - offset) % interval == 0`.
    Periodic {
        /// The level interval at which the requirement is satisfied.
        interval: u32,
        /// The starting level offset for the periodic requirement.
        offset: u32,
    },
}

/// The meaning of a condition at a level.
pub open spec fn condition_holds(condition: Condition, level: int) -> bool {
    match condition {
        Condition::Always => true,
        Condition::MinLevel(min) => level >= min,
        Condition::LevelRange(min, max) => min <= level && level <= max,
        Condition::Periodic { interval, offset } => level >= offset && (level - offset)
            % (interval as int) == 0,
    }
}

/// A condition can be evaluated at a level unless it is periodic with a zero
/// interval and the level has reached the offset (a remainder by zero).
pub open spec fn condition_defined_at(condition: Condition, level: int) -> bool {
    match condition {
        Condition::Periodic { interval, offset } => interval == 0 ==> level < offset,
        _ => true,
    }
}

/// A periodic condition is false at every level below its offset, and from
/// the offset on it holds exactly at the levels `offset + k * interval`.
pub proof fn law_periodic_condition(interval: u32, offset: u32, level: u32)
    ensures
        level < offset ==> !condition_holds(Condition::Periodic { interval, offset }, level as int),
        interval > 0 && level >= offset ==> (condition_holds(
            Condition::Periodic { interval, offset },
            level as int,
        ) <==> exists|k: nat| level == offset + #[trigger] (k * interval)),
{
    let n: int = interval as int;
    let d: int = level as int - offset as int;
    if interval > 0 && level >= offset {
        if d % n == 0 {
            vstd::arithmetic::div_mod::lemma_fundamental_div_mod(d, n);
            let k: nat = (d / n) as nat;
            assert(d / n >= 0) by {
                vstd::arithmetic::div_mod::lemma_div_pos_is_pos(d, n);
            }
            assert(k * interval == n * (d / n)) by (nonlinear_arith)
                requires
                    k == d / n,
                    n == interval,
            ;
            assert(level == offset + k * interval);
        }
        if exists|k: nat| level == offset + #[trigger] (k * interval) {
            let k: nat = choose|k: nat| level == offset + #[trigger] (k * interval);
            vstd::arithmetic::div_mod::lemma_mod_multiples_basic(k as int, n);
            assert(d == k * n);
        }
    }
}

/// The other conditions: `Always` holds everywhere, `MinLevel(min)` from
/// `min` on, and `LevelRange(min, max)` exactly between the two, inclusive.
pub proof fn law_level_conditions(min: u32, max: u32, level: u32)
    ensures
        condition_holds(Condition::Always, level as int),
        condition_holds(Condition::MinLevel(min), level as int) <==> min <= level,
        condition_holds(Condition::LevelRange(min, max), level as int) <==> (min <= level
            && level <= max),
        level < min ==> !condition_holds(Condition::MinLevel(min), level as int)
            && !condition_holds(Condition::LevelRange(min, max), level as int),
{
}

impl Default for Condition {
    fn default() -> (c: Self)
        ensures
            c == Condition::Always,
    {
        Condition::Always
    }
}

impl Condition {
    /// Whether the condition holds at `current_level`.
    pub fn is_satisfied(&self, current_level: u32) -> (res: bool)
        requires
            condition_defined_at(*self, current_level as int),
        ensures
            res == condition_holds(*self, current_level as int),
    {
        match self {
            Condition::Always => true,
            Condition::MinLevel(min) => current_level >= *min,
            Condition::LevelRange(min, max) => current_level >= *min && current_level <= *max,
            Condition::Periodic { interval, offset } => {
                current_level >= *offset && (current_level - *offset) % *interval == 0
            },
        }
    }
}

/// A value gated by a condition on the level.
#[derive(Debug, Clone, PartialEq)]
pub struct Requirement<T> {
    pub condition: Condition,
    pub value: T,
}

impl<T: Default> Default for Requirement<T> {
    fn default() -> (r: Self)
        ensures
            r.condition == Condition::Always,
    {
        Requirement { condition: Condition::Always, value: T::default() }
    }
}

impl<T> Requirement<T> {
    pub fn new(condition: Condition, value: T) -> (r: Self)
        ensures
            r.condition == condition,
            r.value == value,
    {
        Requirement { condition, value }
    }

    /// The value, if the condition holds at level `context`.
    pub fn get(&self, context: u32) -> (res: Option<&T>)
        requires
            condition_defined_at(self.condition, context as int),
        ensures
            res is Some <==> condition_holds(self.condition, context as int),
            res matches Some(v) ==> *v == self.value,
    {
        if self.condition.is_satisfied(context) {
            Some(&self.value)
        } else {
            None
        }
    }

    /// Mutable access to the value, if the condition holds at level `context`.
    pub fn get_mut(&mut self, context: u32) -> (res: Option<&mut T>)
        requires
            condition_defined_at(old(self).condition, context as int),
        ensures
            res is Some <==> condition_holds(old(self).condition, context as int),
            res matches Some(v) ==> *v == old(self).value && final(self).condition == old(
                self,
            ).condition && final(self).value == *final(v),
            res is None ==> *final(self) == *old(self),
    {
        if self.condition.is_satisfied(context) {
            Some(&mut self.value)
        } else {
            None
        }
    }
}

} // verus!
