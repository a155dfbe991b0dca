//! Tests for game setup, the frame queries, and whole-frame scenarios.

use open_miami::components::{AIState, Health, Position, Velocity, WeaponType, AI};
use open_miami::ecs::{Component, ComponentId, World};
use open_miami::game::{
    count_alive_enemies, get_player_ammo, get_player_health, get_player_position, initialize_game,
    is_player_alive, spawn_enemy, spawn_player,
};
use open_miami::systems::{
    AISystem, CombatSystem, InputSystem, MovementSystem, WeaponUpdateSystem,
};

fn damage_entity(world: &mut World, e: open_miami::ecs::Entity, amount: i32) {
    let mut h = world
        .get_component(e, ComponentId::Health)
        .unwrap()
        .as_health()
        .unwrap();
    h.take_damage(amount);
    world.add_component(e, Component::Health(h));
}

#[test]
fn test_spawn_player() {
    let mut world = World::new();
    let player = spawn_player(&mut world, Position::new(100000, 200000));

    assert!(world.has_component(player, ComponentId::Player));
    assert!(world.has_component(player, ComponentId::Position));
    assert!(world.has_component(player, ComponentId::Health));

    let pos = world
        .get_component(player, ComponentId::Position)
        .unwrap()
        .as_position()
        .unwrap();
    assert_eq!(pos.x, 100000);
    assert_eq!(pos.y, 200000);

    let health = world
        .get_component(player, ComponentId::Health)
        .unwrap()
        .as_health()
        .unwrap();
    assert_eq!(health.current, 100);
}

#[test]
fn test_spawn_enemy() {
    let mut world = World::new();
    let enemy = spawn_enemy(&mut world, Position::new(50000, 75000));

    assert!(world.has_component(enemy, ComponentId::Enemy));
    assert!(world.has_component(enemy, ComponentId::Ai));
    assert!(world.has_component(enemy, ComponentId::Position));

    let pos = world
        .get_component(enemy, ComponentId::Position)
        .unwrap()
        .as_position()
        .unwrap();
    assert_eq!(pos.x, 50000);
    assert_eq!(pos.y, 75000);
}

#[test]
fn test_initialize_game() {
    let mut world = World::new();
    initialize_game(&mut world, 0);

    assert_eq!(world.query(ComponentId::Player).len(), 1);
    assert_eq!(world.query(ComponentId::Enemy).len(), 4);

    let mut world2 = World::new();
    initialize_game(&mut world2, 1);
    assert_eq!(world2.query(ComponentId::Player).len(), 1);
    assert_eq!(world2.query(ComponentId::Enemy).len(), 12);
}

#[test]
fn test_is_player_alive() {
    let mut world = World::new();
    spawn_player(&mut world, Position::new(0, 0));

    assert!(is_player_alive(&world));

    let player = world.query(ComponentId::Player)[0];
    damage_entity(&mut world, player, 100);

    assert!(!is_player_alive(&world));
}

#[test]
fn test_get_player_health() {
    let mut world = World::new();
    spawn_player(&mut world, Position::new(0, 0));

    assert_eq!(get_player_health(&world), 100);

    let player = world.query(ComponentId::Player)[0];
    damage_entity(&mut world, player, 30);

    assert_eq!(get_player_health(&world), 70);
}

#[test]
fn test_count_alive_enemies() {
    let mut world = World::new();
    initialize_game(&mut world, 0);

    assert_eq!(count_alive_enemies(&world), 4);

    let enemy = world.query(ComponentId::Enemy)[0];
    damage_entity(&mut world, enemy, 100);

    assert_eq!(count_alive_enemies(&world), 3);
}

#[test]
fn test_get_player_position() {
    let mut world = World::new();
    spawn_player(&mut world, Position::new(123000, 456000));

    let pos = get_player_position(&world).unwrap();
    assert_eq!(pos.x, 123000);
    assert_eq!(pos.y, 456000);
}

#[test]
fn test_find_player() {
    let mut world = World::new();
    let player = world.spawn();
    world.add_component(player, Component::Player(open_miami::components::Player));

    let found = InputSystem::find_player(&world);
    assert_eq!(found, Some(player));
}

#[test]
fn test_find_player_none() {
    let world = World::new();
    let found = InputSystem::find_player(&world);
    assert_eq!(found, None);
}

#[test]
fn test_player_spawning() {
    let mut world = World::new();
    spawn_player(&mut world, Position::new(100000, 200000));

    assert_eq!(world.query(ComponentId::Player).len(), 1);
    assert!(is_player_alive(&world));
    assert_eq!(get_player_health(&world), 100);
}

#[test]
fn test_enemy_spawning() {
    let mut world = World::new();
    spawn_enemy(&mut world, Position::new(50000, 50000));
    spawn_enemy(&mut world, Position::new(100000, 100000));

    assert_eq!(world.query(ComponentId::Enemy).len(), 2);
}

#[test]
fn test_movement_system_moves_entities() {
    let mut world = World::new();
    let player = spawn_player(&mut world, Position::new(0, 0));

    world.add_component(player, Component::Velocity(Velocity::new(100000, 0)));

    let mut movement_system = MovementSystem;
    movement_system.run(&mut world, 1000000);

    let pos = world
        .get_component(player, ComponentId::Position)
        .unwrap()
        .as_position()
        .unwrap();
    assert_eq!(pos.x, 100000);
}

#[test]
fn test_player_takes_damage_and_dies() {
    let mut world = World::new();
    let player = spawn_player(&mut world, Position::new(0, 0));

    assert!(is_player_alive(&world));

    damage_entity(&mut world, player, 100);

    assert!(!is_player_alive(&world));
    assert_eq!(get_player_health(&world), 0);
}

#[test]
fn test_shooting_hits_enemy() {
    let mut world = World::new();

    spawn_player(&mut world, Position::new(0, 0));
    let enemy = spawn_enemy(&mut world, Position::new(50000, 0));

    let shooter_pos = Position::new(0, 0);
    let target_pos = Position::new(100000, 0);

    let hit = CombatSystem::process_shoot(&mut world, shooter_pos, target_pos, 30);

    assert!(hit);
    let health = world
        .get_component(enemy, ComponentId::Health)
        .unwrap()
        .as_health()
        .unwrap();
    assert_eq!(health.current, 20);
}

#[test]
fn test_shooting_kills_enemy() {
    let mut world = World::new();

    spawn_player(&mut world, Position::new(0, 0));
    let enemy = spawn_enemy(&mut world, Position::new(50000, 0));

    let shooter_pos = Position::new(0, 0);
    let target_pos = Position::new(100000, 0);

    CombatSystem::process_shoot(&mut world, shooter_pos, target_pos, 100);

    let health = world
        .get_component(enemy, ComponentId::Health)
        .unwrap()
        .as_health()
        .unwrap();
    assert!(health.is_dead());
}

#[test]
fn test_enemy_attacks_player() {
    let mut world = World::new();

    let player = spawn_player(&mut world, Position::new(0, 0));
    let enemy = spawn_enemy(&mut world, Position::new(30000, 0));

    let mut ai = world
        .get_component(enemy, ComponentId::Ai)
        .unwrap()
        .as_ai()
        .unwrap();
    ai.state = AIState::Attack;
    world.add_component(enemy, Component::Ai(ai));

    let mut combat_system = CombatSystem;
    combat_system.run(&mut world, 16000);

    let health = world
        .get_component(player, ComponentId::Health)
        .unwrap()
        .as_health()
        .unwrap();
    assert_eq!(health.current, 90);
}

#[test]
fn test_complete_game_scenario_player_clears_room() {
    let mut world = World::new();
    initialize_game(&mut world, 0);

    assert_eq!(count_alive_enemies(&world), 4);

    let enemy_positions: Vec<Position> = world
        .query(ComponentId::Enemy)
        .iter()
        .filter_map(|&e| {
            world
                .get_component(e, ComponentId::Position)
                .and_then(|c| c.as_position())
        })
        .collect();

    let shooter_pos = get_player_position(&world).unwrap();

    for enemy_pos in enemy_positions {
        CombatSystem::process_shoot(&mut world, shooter_pos, enemy_pos, 100);
    }

    assert_eq!(count_alive_enemies(&world), 0);
    assert!(is_player_alive(&world));
}

#[test]
fn test_weapon_system_updates_cooldown() {
    let mut world = World::new();
    let player = spawn_player(&mut world, Position::new(0, 0));

    let mut weapon = world
        .get_component(player, ComponentId::Weapon)
        .unwrap()
        .as_weapon()
        .unwrap();
    weapon.fire();
    world.add_component(player, Component::Weapon(weapon));

    let mut weapon_system = WeaponUpdateSystem;
    weapon_system.run(&mut world, 300000);

    let weapon = world
        .get_component(player, ComponentId::Weapon)
        .unwrap()
        .as_weapon()
        .unwrap();
    assert_eq!(weapon.fire_timer, 200000);
}

#[test]
fn test_melee_attack_hits_in_range() {
    let mut world = World::new();

    spawn_player(&mut world, Position::new(0, 0));
    let enemy = spawn_enemy(&mut world, Position::new(30000, 0));

    let attacker_pos = Position::new(0, 0);
    let target_pos = Position::new(100000, 0);

    let hit = CombatSystem::process_melee(&mut world, attacker_pos, target_pos, 50, 50000);

    assert!(hit);
    let health = world
        .get_component(enemy, ComponentId::Health)
        .unwrap()
        .as_health()
        .unwrap();
    assert_eq!(health.current, 0);
}

#[test]
fn test_multiple_systems_integration() {
    let mut world = World::new();
    initialize_game(&mut world, 0);

    let mut movement_system = MovementSystem;
    let mut ai_system = AISystem::new();
    let mut weapon_system = WeaponUpdateSystem;
    let mut combat_system = CombatSystem;

    for _ in 0..60 {
        weapon_system.run(&mut world, 16000);
        ai_system.run(&mut world, 16000);
        movement_system.run(&mut world, 16000);
        combat_system.run(&mut world, 16000);
    }

    assert!(!world.query(ComponentId::Player).is_empty());
    assert!(!world.query(ComponentId::Enemy).is_empty());
}

#[test]
fn test_world_clear_and_reinitialize() {
    let mut world = World::new();
    initialize_game(&mut world, 0);

    assert_eq!(world.query(ComponentId::Player).len(), 1);
    assert_eq!(world.query(ComponentId::Enemy).len(), 4);

    world.clear();

    assert_eq!(world.query(ComponentId::Player).len(), 0);
    assert_eq!(world.query(ComponentId::Enemy).len(), 0);

    initialize_game(&mut world, 0);

    assert_eq!(world.query(ComponentId::Player).len(), 1);
    assert_eq!(world.query(ComponentId::Enemy).len(), 4);
    assert!(is_player_alive(&world));
}

#[test]
fn test_replay_simulation() {
    let mut world = World::new();
    let player = spawn_player(&mut world, Position::new(100000, 100000));
    spawn_enemy(&mut world, Position::new(200000, 100000));

    assert_eq!(get_player_health(&world), 100);

    world.add_component(player, Component::Velocity(Velocity::new(100000, 0)));

    let mut movement_system = MovementSystem;
    for _ in 0..60 {
        movement_system.run(&mut world, 16667);
    }

    let final_pos = world
        .get_component(player, ComponentId::Position)
        .unwrap()
        .as_position()
        .unwrap();
    assert!((final_pos.x - 200000).abs() < 1000);
}

#[test]
fn test_weapon_ammo_depletion() {
    let mut world = World::new();
    let player = spawn_player(&mut world, Position::new(0, 0));

    let initial_ammo = get_player_ammo(&world);

    for _ in 0..initial_ammo {
        let mut weapon = world
            .get_component(player, ComponentId::Weapon)
            .unwrap()
            .as_weapon()
            .unwrap();
        weapon.fire();
        weapon.fire_timer = 0;
        world.add_component(player, Component::Weapon(weapon));
    }

    let weapon = world
        .get_component(player, ComponentId::Weapon)
        .unwrap()
        .as_weapon()
        .unwrap();
    assert_eq!(weapon.ammo, 0);
    assert!(!weapon.can_fire());
}

#[test]
fn test_player_movement_input() {
    let mut world = World::new();
    spawn_player(&mut world, Position::new(0, 0));
    let player = world.query(ComponentId::Player)[0];

    // Straight right at full speed.
    InputSystem::update_player_movement(&mut world, false, false, false, true);
    let v = world
        .get_component(player, ComponentId::Velocity)
        .unwrap()
        .as_velocity()
        .unwrap();
    assert_eq!(v.x, 200000);
    assert_eq!(v.y, 0);

    // Diagonal down-right, normalised.
    InputSystem::update_player_movement(&mut world, false, true, false, true);
    let v = world
        .get_component(player, ComponentId::Velocity)
        .unwrap()
        .as_velocity()
        .unwrap();
    assert_eq!(v.x, 141400);
    assert_eq!(v.y, 141400);
}

#[test]
fn test_weapon_switch_input() {
    let mut world = World::new();
    spawn_player(&mut world, Position::new(0, 0));
    let player = world.query(ComponentId::Player)[0];

    InputSystem::handle_weapon_switch(&mut world, Some(WeaponType::Shotgun));
    let w = world
        .get_component(player, ComponentId::Weapon)
        .unwrap()
        .as_weapon()
        .unwrap();
    assert_eq!(w.weapon_type, WeaponType::Shotgun);
    assert_eq!(w.ammo, 6);

    InputSystem::handle_weapon_switch(&mut world, None);
    let w = world
        .get_component(player, ComponentId::Weapon)
        .unwrap()
        .as_weapon()
        .unwrap();
    assert_eq!(w.weapon_type, WeaponType::Shotgun);
}

#[test]
fn test_shoot_input_spawns_bullet() {
    let mut world = World::new();
    spawn_player(&mut world, Position::new(0, 0));

    let hit = InputSystem::handle_shoot_input(&mut world, Position::new(100000, 0), true);
    assert!(!hit);
    assert_eq!(world.query(ComponentId::Bullet).len(), 1);

    // Held trigger during cooldown spawns nothing further.
    InputSystem::handle_shoot_input(&mut world, Position::new(100000, 0), true);
    assert_eq!(world.query(ComponentId::Bullet).len(), 1);
}

#[test]
fn test_deterministic_rng_sequence() {
    let mut a = open_miami::rng::Rng::new();
    let mut b = open_miami::rng::Rng::new();
    for _ in 0..16 {
        assert_eq!(a.next_random(), b.next_random());
    }
    let r = a.random_int_range(2, 3);
    assert!(r == 2 || r == 3);
}
