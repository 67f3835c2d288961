use void_portal::portal::{
    find_upgrade_slot, portal_tick_decision, PortalLevel, PortalSpawnTracker, TickOutcome,
    UpgradeSlot, CAPACITY_SLOT, LIFETIME_SLOT,
};
use void_portal::targeting::spawn_age;

fn slots(names: &[&str]) -> Vec<UpgradeSlot> {
    names.iter().map(|n| UpgradeSlot { name: n.to_string() }).collect()
}

#[test]
fn portal_level_starts_at_zero() {
    let level = PortalLevel::default();
    assert_eq!(level.max_unlocked, 0);
    assert_eq!(level.active, 0);
}

#[test]
fn portal_upgrade_unlocks_and_snaps_active_level() {
    let mut level = PortalLevel { active: 0, max_unlocked: 0 };
    level.unlock_next_level();
    assert_eq!(level.max_unlocked, 1);
    assert_eq!(level.active, 1);

    let mut level = PortalLevel { active: 2, max_unlocked: 5 };
    level.unlock_next_level();
    assert_eq!(level, PortalLevel { active: 6, max_unlocked: 6 });
}

#[test]
fn active_level_change_is_clamped() {
    let mut level = PortalLevel { active: 3, max_unlocked: 4 };
    assert!(level.change_active_level(1));
    assert_eq!(level.active, 4);
    assert!(!level.change_active_level(1));
    assert_eq!(level.active, 4);
    assert!(level.change_active_level(-10));
    assert_eq!(level.active, 1);
    assert!(!level.change_active_level(-1));
    assert_eq!(level.active, 1);
    assert_eq!(level.max_unlocked, 4);
}

#[test]
fn active_level_change_lifts_level_zero_to_one() {
    let mut level = PortalLevel { active: 0, max_unlocked: 2 };
    assert!(level.change_active_level(0));
    assert_eq!(level.active, 1);
}

#[test]
fn active_level_change_from_above_max() {
    // An active level that reads as a negative i32 is clamped up to 1.
    let mut level = PortalLevel { active: u32::MAX, max_unlocked: 3 };
    assert!(level.change_active_level(1));
    assert_eq!(level.active, 1);
    let mut level = PortalLevel { active: 9, max_unlocked: 3 };
    assert!(level.change_active_level(-1));
    assert_eq!(level.active, 3);
}

#[test]
fn spawn_tracker_hands_out_consecutive_indices_and_wraps() {
    let mut tracker = PortalSpawnTracker::default();
    assert_eq!(tracker.next_spawn_index(), 0);
    assert_eq!(tracker.next_spawn_index(), 1);
    assert_eq!(tracker.0, 2);

    let mut tracker = PortalSpawnTracker(u32::MAX);
    let old = tracker.next_spawn_index();
    let new = tracker.next_spawn_index();
    assert_eq!(old, u32::MAX);
    assert_eq!(new, 0);
    assert_eq!(tracker.0, 1);
    // The earlier spawn stays older across the wrap.
    assert!(spawn_age(tracker.0, old) > spawn_age(tracker.0, new));
    assert_eq!(spawn_age(tracker.0, old), 2);
}

#[test]
fn upgrade_slot_lookup_finds_first_match() {
    let s = slots(&["Capacity", "Lifetime", "Capacity"]);
    assert_eq!(find_upgrade_slot(&s, &CAPACITY_SLOT.to_string()), Some(0));
    assert_eq!(find_upgrade_slot(&s, &LIFETIME_SLOT.to_string()), Some(1));
    assert_eq!(find_upgrade_slot(&s, &"Speed".to_string()), None);
    assert_eq!(find_upgrade_slot(&Vec::new(), &CAPACITY_SLOT.to_string()), None);
}

#[test]
fn tick_decision_covers_every_outcome() {
    assert_eq!(portal_tick_decision(false, Some(5), 0), TickOutcome::NoMonstersAvailable);
    assert_eq!(portal_tick_decision(true, None, 0), TickOutcome::NoCapacitySlot);
    assert_eq!(portal_tick_decision(true, Some(5), 4), TickOutcome::RequestSpawn);
    assert_eq!(portal_tick_decision(true, Some(5), 5), TickOutcome::AtCapacity);
    assert_eq!(portal_tick_decision(true, Some(0), 0), TickOutcome::AtCapacity);
}
