use void_portal::combat::{projectile_hit, weapons_to_fire, CollisionCheck, WeaponReadiness};
use void_portal::targeting::Intent;

fn weapon(weapon: u64, ready: bool) -> WeaponReadiness {
    WeaponReadiness { weapon, ready }
}

#[test]
fn only_ready_weapons_fire_when_attacking() {
    let weapons = vec![weapon(1, true), weapon(2, false), weapon(3, true)];
    assert_eq!(weapons_to_fire(Intent::Attack(9), &weapons), vec![1, 3]);
}

#[test]
fn nothing_fires_without_attack_intent() {
    let weapons = vec![weapon(1, true), weapon(2, true)];
    assert!(weapons_to_fire(Intent::Idle, &weapons).is_empty());
    assert!(weapons_to_fire(Intent::MoveTo(9), &weapons).is_empty());
}

#[test]
fn weapons_on_cooldown_do_not_fire() {
    let weapons = vec![weapon(1, false)];
    assert!(weapons_to_fire(Intent::Attack(9), &weapons).is_empty());
    assert!(weapons_to_fire(Intent::Attack(9), &Vec::new()).is_empty());
}

#[test]
fn projectile_hits_first_touching_monster_only() {
    // Monster size 24, projectile 8: a hit is a distance below 20.
    let distances = [(4u64, 35.0f32), (5, 12.0), (6, 3.0)];
    let checks: Vec<CollisionCheck> = distances
        .iter()
        .map(|(e, d)| CollisionCheck { entity: *e, touching: *d < 20.0 })
        .collect();
    assert_eq!(projectile_hit(&checks), Some(5));
}

#[test]
fn projectile_misses_when_nothing_is_close() {
    let checks = vec![CollisionCheck { entity: 1, touching: false }];
    assert_eq!(projectile_hit(&checks), None);
    assert_eq!(projectile_hit(&Vec::new()), None);
}
