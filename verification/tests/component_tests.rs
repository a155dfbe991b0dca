//! Tests for the plain component types.

use open_miami::components::{
    Health, Position, ProjectileTrail, Velocity, Weapon, WeaponType, AIState, AI,
};

#[test]
fn test_position_distance() {
    let p1 = Position::new(0, 0);
    let p2 = Position::new(3000, 4000);
    assert_eq!(p1.distance_to(&p2), 5000);
}

#[test]
fn test_health_take_damage() {
    let mut health = Health::new(100);
    assert!(health.is_alive());

    health.take_damage(30);
    assert_eq!(health.current, 70);
    assert!(health.is_alive());

    health.take_damage(80);
    assert_eq!(health.current, 0);
    assert!(health.is_dead());
}

#[test]
fn test_health_cannot_go_negative() {
    let mut health = Health::new(50);
    health.take_damage(100);
    assert_eq!(health.current, 0);
}

#[test]
fn test_health_repeated_overkill_stays_clamped() {
    let mut health = Health::new(50);
    health.take_damage(100);
    assert_eq!(health.current, 0);
    health.take_damage(100);
    assert_eq!(health.current, 0);
    assert!(health.is_dead());
}

#[test]
fn test_ai_state_transitions() {
    let mut ai = AI::new();
    assert_eq!(ai.state, AIState::Unaware);

    ai.state = AIState::SurePlayerSeen;
    assert_eq!(ai.state, AIState::SurePlayerSeen);
}

#[test]
fn test_ai_attack_cooldown() {
    let mut ai = AI::new();
    assert!(ai.can_attack());

    ai.reset_attack_timer();
    assert!(!ai.can_attack());

    ai.attack_timer = 0;
    assert!(ai.can_attack());
}

#[test]
fn test_weapon_pistol_stats() {
    let weapon = Weapon::new(WeaponType::Pistol);
    assert_eq!(weapon.damage, 50);
    assert_eq!(weapon.max_ammo, 12);
    assert_eq!(weapon.ammo, 12);
    assert_eq!(weapon.fire_rate, 500000);
}

#[test]
fn test_weapon_shotgun_stats() {
    let weapon = Weapon::new(WeaponType::Shotgun);
    assert_eq!(weapon.damage, 80);
    assert_eq!(weapon.max_ammo, 6);
}

#[test]
fn test_weapon_fire() {
    let mut weapon = Weapon::new(WeaponType::Pistol);
    assert!(weapon.can_fire());

    weapon.fire();
    assert_eq!(weapon.ammo, 11);
    assert!(!weapon.can_fire());

    weapon.fire_timer = 0;
    assert!(weapon.can_fire());
}

#[test]
fn test_weapon_empty_ammo() {
    let mut weapon = Weapon::new(WeaponType::Pistol);
    weapon.ammo = 0;
    assert!(!weapon.can_fire());
}

#[test]
fn test_weapon_update_timer() {
    let mut weapon = Weapon::new(WeaponType::Pistol);
    weapon.fire();

    assert_eq!(weapon.fire_timer, 500000);

    weapon.update(300000);
    assert_eq!(weapon.fire_timer, 200000);

    weapon.update(300000);
    assert_eq!(weapon.fire_timer, -100000);
    assert!(weapon.can_fire());
}

#[test]
fn test_velocity_zero() {
    let vel = Velocity::zero();
    assert_eq!(vel.x, 0);
    assert_eq!(vel.y, 0);
}

#[test]
fn test_projectile_trail_lifetime() {
    let trail = ProjectileTrail::new(Position::new(0, 0), Position::new(100000, 100000));
    assert_eq!(trail.lifetime, 150000);
    assert!(trail.is_alive());
}
