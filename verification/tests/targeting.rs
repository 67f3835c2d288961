use void_portal::targeting::{
    player_npc_decision_logic, resolve_target, soldier_acquire_target, soldier_decision_logic,
    spawn_age, Engagement, Intent, TargetCandidate,
};

fn monster(entity: u64, spawn_index: u32) -> TargetCandidate {
    TargetCandidate { entity, spawn_index, in_range: false }
}

fn monster_at(entity: u64, spawn_index: u32, distance: f32, range: f32) -> TargetCandidate {
    TargetCandidate { entity, spawn_index, in_range: distance <= range }
}

#[test]
fn test_soldier_targeting_oldest() {
    // Tracker at 10. Enemy A: index 8 (age 2), B: index 5 (age 5, oldest), C: index 9 (age 1).
    let (enemy_a, enemy_b, enemy_c) = (1u64, 2u64, 3u64);
    let mut enemies = vec![
        monster_at(enemy_a, 8, 0.0, 150.0),
        monster_at(enemy_b, 5, 0.0, 150.0),
        monster_at(enemy_c, 9, 0.0, 150.0),
    ];
    let decision = soldier_decision_logic(None, &enemies, 10);
    assert_eq!(decision.target, Some(enemy_b));

    // Kill B: the soldier retargets to the next oldest, A.
    enemies.remove(1);
    let decision = soldier_decision_logic(decision.target, &enemies, 10);
    assert_eq!(decision.target, Some(enemy_a));
}

#[test]
fn test_soldier_targeting_wrapping() {
    // Tracker at 2, just wrapped around u32::MAX.
    // Enemy A: index 1, age 1. Enemy B: index u32::MAX, age 3 (oldest, across the wrap).
    let (enemy_a, enemy_b) = (1u64, 2u64);
    let enemies = vec![monster(enemy_a, 1), monster(enemy_b, u32::MAX)];
    let decision = soldier_decision_logic(None, &enemies, 2);
    assert_eq!(
        decision.target,
        Some(enemy_b),
        "Should target Enemy B because it is older across the wrap boundary"
    );
}

#[test]
fn test_soldier_attack_timer_reset_on_retarget() {
    let monster_a = 10u64;
    let monsters = vec![monster_at(monster_a, 0, 0.0, 150.0)];
    let first = soldier_decision_logic(None, &monsters, 0);
    assert_eq!(first.target, Some(monster_a));

    // A dies and B (index 1) appears: the soldier retargets and primes its timer.
    let monster_b = 11u64;
    let monsters = vec![monster_at(monster_b, 1, 0.0, 150.0)];
    let second = soldier_decision_logic(first.target, &monsters, 2);
    assert_eq!(second.target, Some(monster_b));
    assert!(second.reset_attack_timer);
    assert_eq!(second.engagement, Engagement::Attacking(monster_b));
}

#[test]
fn test_npc_acquires_target() {
    let monster = 42u64;
    let monsters = vec![monster_at(monster, 0, 10.0, 0.0)];
    let decision = player_npc_decision_logic(None, &monsters, 1);
    assert_eq!(decision.target, Some(monster), "NPC should target the monster");
}

#[test]
fn test_npc_stops_in_range() {
    // NPC at 80, monster at 100: distance 20 within the weapon range 30.
    let monster = 5u64;
    let monsters = vec![monster_at(monster, 0, (100.0f32 - 80.0).abs(), 30.0)];
    let decision = player_npc_decision_logic(None, &monsters, 1);
    assert_eq!(decision.intent, Intent::Attack(monster), "NPC should not move if in range");
}

#[test]
fn npc_moves_towards_target_out_of_range() {
    // NPC at 0, monster at 100, weapon range 20.
    let monster = 5u64;
    let monsters = vec![monster_at(monster, 0, 100.0, 20.0)];
    let decision = player_npc_decision_logic(None, &monsters, 1);
    assert_eq!(decision.target, Some(monster));
    assert_eq!(decision.intent, Intent::MoveTo(monster));
}

#[test]
fn npc_idles_without_monsters() {
    let decision = player_npc_decision_logic(Some(3), &Vec::new(), 7);
    assert_eq!(decision.target, None);
    assert_eq!(decision.intent, Intent::Idle);
}

#[test]
fn live_target_is_kept_even_when_an_older_monster_appears() {
    let monsters = vec![monster(1, 9), monster(2, 0)];
    let decision = player_npc_decision_logic(Some(1), &monsters, 10);
    assert_eq!(decision.target, Some(1));
    let soldier = soldier_decision_logic(Some(1), &monsters, 10);
    assert_eq!(soldier.target, Some(1));
    assert!(!soldier.reset_attack_timer);
    assert_eq!(soldier.engagement, Engagement::Moving(1));
}

#[test]
fn resolving_twice_gives_the_same_target() {
    let monsters = vec![monster(4, 3), monster(5, 1), monster(6, 7)];
    let first = resolve_target(None, &monsters, 8);
    assert_eq!(first, Some(5));
    assert_eq!(resolve_target(first, &monsters, 8), first);
    assert_eq!(resolve_target(first, &monsters, 100), first);
}

#[test]
fn equally_old_candidates_break_ties_differently() {
    // The decision steps keep the last of equally old monsters; the legacy
    // soldier target search keeps the first.
    let monsters = vec![monster(1, 5), monster(2, 5)];
    assert_eq!(resolve_target(None, &monsters, 10), Some(2));
    assert_eq!(soldier_acquire_target(None, &monsters, 10), Some(1));
}

#[test]
fn soldier_acquire_target_keeps_live_target_and_replaces_dead_one() {
    let enemies = vec![monster(1, 9), monster(2, 3), monster(3, 3)];
    assert_eq!(soldier_acquire_target(Some(1), &enemies, 10), Some(1));
    assert_eq!(soldier_acquire_target(Some(99), &enemies, 10), Some(2));
    assert_eq!(soldier_acquire_target(None, &Vec::new(), 10), None);
}

#[test]
fn soldier_without_enemies_holds() {
    let decision = soldier_decision_logic(Some(4), &Vec::new(), 0);
    assert_eq!(decision.target, None);
    assert!(!decision.reset_attack_timer);
    assert_eq!(decision.engagement, Engagement::Hold);
}

#[test]
fn spawn_age_wraps_with_the_counter() {
    assert_eq!(spawn_age(10, 5), 5);
    assert_eq!(spawn_age(2, u32::MAX), 3);
    assert_eq!(spawn_age(0, 0), 0);
    assert_eq!(spawn_age(0, 1), u32::MAX);
}
