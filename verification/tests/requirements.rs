use void_portal::requirements::{Condition, Requirement};

#[test]
fn test_condition_always() {
    let cond = Condition::Always;
    assert!(cond.is_satisfied(0));
    assert!(cond.is_satisfied(10));
}

#[test]
fn test_condition_min_level() {
    let cond = Condition::MinLevel(5);
    assert!(!cond.is_satisfied(0));
    assert!(!cond.is_satisfied(4));
    assert!(cond.is_satisfied(5));
    assert!(cond.is_satisfied(10));
}

#[test]
fn test_requirement_wrap() {
    let req = Requirement::new(Condition::MinLevel(5), 100);
    assert_eq!(req.get(4), None);
    assert_eq!(req.get(5), Some(&100));
}

#[test]
fn condition_level_range_is_inclusive() {
    let cond = Condition::LevelRange(3, 6);
    assert!(!cond.is_satisfied(2));
    assert!(cond.is_satisfied(3));
    assert!(cond.is_satisfied(6));
    assert!(!cond.is_satisfied(7));
}

#[test]
fn condition_periodic_counts_from_offset() {
    let cond = Condition::Periodic { interval: 3, offset: 2 };
    assert!(!cond.is_satisfied(0));
    assert!(!cond.is_satisfied(1));
    assert!(cond.is_satisfied(2));
    assert!(!cond.is_satisfied(4));
    assert!(cond.is_satisfied(5));
    assert!(cond.is_satisfied(8));
    assert!(!cond.is_satisfied(9));
}

#[test]
fn condition_periodic_zero_interval_below_offset() {
    // Below the offset the remainder is never taken, so a zero interval is harmless.
    let cond = Condition::Periodic { interval: 0, offset: 5 };
    assert!(!cond.is_satisfied(4));
}

#[test]
fn condition_default_is_always() {
    assert_eq!(Condition::default(), Condition::Always);
}

#[test]
fn requirement_default_is_unconditional() {
    let req: Requirement<u32> = Requirement::default();
    assert_eq!(req.condition, Condition::Always);
    assert_eq!(req.get(0), Some(&0));
    assert_eq!(req.get(10), Some(&0));
}

#[test]
fn requirement_get_mut_only_when_satisfied() {
    let mut req = Requirement::new(Condition::LevelRange(1, 2), 7u32);
    assert!(req.get_mut(3).is_none());
    assert_eq!(req.value, 7);
    if let Some(v) = req.get_mut(2) {
        *v = 9;
    }
    assert_eq!(req.value, 9);
    assert_eq!(req.condition, Condition::LevelRange(1, 2));
}
