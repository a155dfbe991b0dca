//! Tests for the per-frame behaviour systems.

use open_miami::components::{
    AIState, EnemyType, Health, Position, ProjectileTrail, Radius, Rotation, Speed, Velocity,
    Weapon, WeaponType, AI,
};
use open_miami::ecs::{Component, ComponentId, World};
use open_miami::systems::{
    AISystem, CombatSystem, MovementSystem, ProjectileTrailSystem, WeaponUpdateSystem,
};

fn get_position(world: &World, e: open_miami::ecs::Entity) -> Position {
    world
        .get_component(e, ComponentId::Position)
        .unwrap()
        .as_position()
        .unwrap()
}

fn get_velocity(world: &World, e: open_miami::ecs::Entity) -> Velocity {
    world
        .get_component(e, ComponentId::Velocity)
        .unwrap()
        .as_velocity()
        .unwrap()
}

fn get_ai(world: &World, e: open_miami::ecs::Entity) -> AI {
    world
        .get_component(e, ComponentId::Ai)
        .unwrap()
        .as_ai()
        .unwrap()
}

fn get_health(world: &World, e: open_miami::ecs::Entity) -> Health {
    world
        .get_component(e, ComponentId::Health)
        .unwrap()
        .as_health()
        .unwrap()
}

#[test]
fn test_movement_system_applies_velocity() {
    let mut world = World::new();
    let entity = world.spawn();

    world.add_component(entity, Component::Position(Position::new(0, 0)));
    world.add_component(entity, Component::Velocity(Velocity::new(100000, 50000)));

    let mut system = MovementSystem;
    system.run(&mut world, 1000000);

    let pos = get_position(&world, entity);
    assert_eq!(pos.x, 100000);
    assert_eq!(pos.y, 50000);
}

#[test]
fn test_movement_system_with_dt() {
    let mut world = World::new();
    let entity = world.spawn();

    world.add_component(entity, Component::Position(Position::new(10000, 20000)));
    world.add_component(entity, Component::Velocity(Velocity::new(100000, 200000)));

    let mut system = MovementSystem;
    system.run(&mut world, 500000);

    let pos = get_position(&world, entity);
    assert_eq!(pos.x, 60000);
    assert_eq!(pos.y, 120000);
}

#[test]
fn test_movement_system_multiple_entities() {
    let mut world = World::new();

    let e1 = world.spawn();
    world.add_component(e1, Component::Position(Position::new(0, 0)));
    world.add_component(e1, Component::Velocity(Velocity::new(10000, 0)));

    let e2 = world.spawn();
    world.add_component(e2, Component::Position(Position::new(0, 0)));
    world.add_component(e2, Component::Velocity(Velocity::new(0, 20000)));

    let mut system = MovementSystem;
    system.run(&mut world, 1000000);

    let pos1 = get_position(&world, e1);
    let pos2 = get_position(&world, e2);

    assert_eq!(pos1.x, 10000);
    assert_eq!(pos1.y, 0);
    assert_eq!(pos2.x, 0);
    assert_eq!(pos2.y, 20000);
}

#[test]
fn test_movement_system_ignores_entities_without_velocity() {
    let mut world = World::new();

    let entity = world.spawn();
    world.add_component(entity, Component::Position(Position::new(10000, 20000)));

    let mut system = MovementSystem;
    system.run(&mut world, 1000000);

    let pos = get_position(&world, entity);
    assert_eq!(pos.x, 10000);
    assert_eq!(pos.y, 20000);
}

#[test]
fn test_weapon_update_system_decreases_timer() {
    let mut world = World::new();
    let entity = world.spawn();

    let mut weapon = Weapon::new(WeaponType::Pistol);
    weapon.fire();
    world.add_component(entity, Component::Weapon(weapon));

    let mut system = WeaponUpdateSystem;
    system.run(&mut world, 300000);

    let weapon = world
        .get_component(entity, ComponentId::Weapon)
        .unwrap()
        .as_weapon()
        .unwrap();
    assert_eq!(weapon.fire_timer, 200000);
}

#[test]
fn test_weapon_update_system_multiple_weapons() {
    let mut world = World::new();

    let e1 = world.spawn();
    let mut w1 = Weapon::new(WeaponType::Pistol);
    w1.fire();
    world.add_component(e1, Component::Weapon(w1));

    let e2 = world.spawn();
    let mut w2 = Weapon::new(WeaponType::Shotgun);
    w2.fire();
    world.add_component(e2, Component::Weapon(w2));

    let mut system = WeaponUpdateSystem;
    system.run(&mut world, 500000);

    let weapon1 = world
        .get_component(e1, ComponentId::Weapon)
        .unwrap()
        .as_weapon()
        .unwrap();
    let weapon2 = world
        .get_component(e2, ComponentId::Weapon)
        .unwrap()
        .as_weapon()
        .unwrap();

    assert_eq!(weapon1.fire_timer, 0);
    assert_eq!(weapon2.fire_timer, 500000);
}

#[test]
fn test_projectile_trail_system_decreases_lifetime() {
    let mut world = World::new();
    let entity = world.spawn();

    let start = Position::new(0, 0);
    let end = Position::new(100000, 100000);
    world.add_component(entity, Component::ProjectileTrail(ProjectileTrail::new(start, end)));

    let mut system = ProjectileTrailSystem;
    system.run(&mut world, 100000);

    let trail = world
        .get_component(entity, ComponentId::ProjectileTrail)
        .unwrap()
        .as_projectile_trail()
        .unwrap();
    assert_eq!(trail.lifetime, 50000);
}

#[test]
fn test_projectile_trail_system_removes_dead_trails() {
    let mut world = World::new();
    let entity = world.spawn();

    let start = Position::new(0, 0);
    let end = Position::new(100000, 100000);
    world.add_component(entity, Component::ProjectileTrail(ProjectileTrail::new(start, end)));

    let mut system = ProjectileTrailSystem;
    system.run(&mut world, 200000);

    assert!(world.get_component(entity, ComponentId::ProjectileTrail).is_none());
}

#[test]
fn test_projectile_trail_system_multiple_trails() {
    let mut world = World::new();

    for i in 0..3i64 {
        let entity = world.spawn();
        let start = Position::new(i * 10000, 0);
        let end = Position::new(i * 10000 + 100000, 100000);
        world.add_component(entity, Component::ProjectileTrail(ProjectileTrail::new(start, end)));
    }

    let mut system = ProjectileTrailSystem;
    system.run(&mut world, 100000);

    let trails = world.query(ComponentId::ProjectileTrail);
    assert_eq!(trails.len(), 3);

    system.run(&mut world, 200000);

    let trails = world.query(ComponentId::ProjectileTrail);
    assert_eq!(trails.len(), 0);
}

#[test]
fn test_line_circle_collision_hit() {
    let start = Position::new(0, 0);
    let end = Position::new(100000, 0);
    let circle = Position::new(50000, 5000);
    let radius = 10000;

    assert!(CombatSystem::line_circle_collision(&start, &end, &circle, radius));
}

#[test]
fn test_line_circle_collision_miss() {
    let start = Position::new(0, 0);
    let end = Position::new(100000, 0);
    let circle = Position::new(50000, 20000);
    let radius = 10000;

    assert!(!CombatSystem::line_circle_collision(&start, &end, &circle, radius));
}

#[test]
fn test_line_circle_collision_direct_hit() {
    let start = Position::new(0, 0);
    let end = Position::new(100000, 0);
    let circle = Position::new(50000, 0);
    let radius = 5000;

    assert!(CombatSystem::line_circle_collision(&start, &end, &circle, radius));
}

fn spawn_test_enemy(world: &mut World, pos: Position, hp: i32) -> open_miami::ecs::Entity {
    let enemy = world.spawn();
    world.add_component(enemy, Component::Enemy(open_miami::components::Enemy));
    world.add_component(enemy, Component::Position(pos));
    world.add_component(enemy, Component::Radius(Radius::new(10000)));
    world.add_component(enemy, Component::Health(Health::new(hp)));
    enemy
}

#[test]
fn test_process_shoot_hits_enemy() {
    let mut world = World::new();

    let enemy = spawn_test_enemy(&mut world, Position::new(50000, 0), 100);

    let shooter_pos = Position::new(0, 0);
    let target_pos = Position::new(100000, 0);

    let hit = CombatSystem::process_shoot(&mut world, shooter_pos, target_pos, 30);

    assert!(hit);
    assert_eq!(get_health(&world, enemy).current, 70);
}

#[test]
fn test_process_shoot_misses_enemy() {
    let mut world = World::new();

    let enemy = spawn_test_enemy(&mut world, Position::new(50000, 50000), 100);

    let shooter_pos = Position::new(0, 0);
    let target_pos = Position::new(100000, 0);

    let hit = CombatSystem::process_shoot(&mut world, shooter_pos, target_pos, 30);

    assert!(!hit);
    assert_eq!(get_health(&world, enemy).current, 100);
}

#[test]
fn test_process_shoot_ignores_dead_enemies() {
    let mut world = World::new();

    let enemy = world.spawn();
    world.add_component(enemy, Component::Enemy(open_miami::components::Enemy));
    world.add_component(enemy, Component::Position(Position::new(50000, 0)));
    world.add_component(enemy, Component::Radius(Radius::new(10000)));
    world.add_component(
        enemy,
        Component::Health(Health { current: 0, max: 100 }),
    );

    let shooter_pos = Position::new(0, 0);
    let target_pos = Position::new(100000, 0);

    let hit = CombatSystem::process_shoot(&mut world, shooter_pos, target_pos, 30);

    assert!(!hit);
}

#[test]
fn test_process_melee_in_range() {
    let mut world = World::new();

    let enemy = world.spawn();
    world.add_component(enemy, Component::Enemy(open_miami::components::Enemy));
    world.add_component(enemy, Component::Position(Position::new(30000, 0)));
    world.add_component(enemy, Component::Health(Health::new(100)));

    let attacker_pos = Position::new(0, 0);
    let target_pos = Position::new(100000, 0);

    let hit = CombatSystem::process_melee(&mut world, attacker_pos, target_pos, 50, 50000);

    assert!(hit);
    assert_eq!(get_health(&world, enemy).current, 50);
}

#[test]
fn test_process_melee_out_of_range() {
    let mut world = World::new();

    let enemy = world.spawn();
    world.add_component(enemy, Component::Enemy(open_miami::components::Enemy));
    world.add_component(enemy, Component::Position(Position::new(100000, 0)));
    world.add_component(enemy, Component::Health(Health::new(100)));

    let attacker_pos = Position::new(0, 0);
    let target_pos = Position::new(100000, 0);

    let hit = CombatSystem::process_melee(&mut world, attacker_pos, target_pos, 50, 50000);

    assert!(!hit);
    assert_eq!(get_health(&world, enemy).current, 100);
}

#[test]
fn test_combat_system_enemy_attacks_player() {
    let mut world = World::new();

    let player = world.spawn();
    world.add_component(player, Component::Player(open_miami::components::Player));
    world.add_component(player, Component::Position(Position::new(0, 0)));
    world.add_component(player, Component::Health(Health::new(100)));

    let enemy = world.spawn();
    world.add_component(enemy, Component::Enemy(open_miami::components::Enemy));
    world.add_component(enemy, Component::Position(Position::new(30000, 0)));
    world.add_component(enemy, Component::Health(Health::new(100)));
    let mut ai = AI::new();
    ai.state = AIState::Attack;
    world.add_component(enemy, Component::Ai(ai));

    let mut system = CombatSystem;
    system.run(&mut world, 16000);

    assert_eq!(get_health(&world, player).current, 90);
}

#[test]
fn test_combat_system_respects_attack_cooldown() {
    let mut world = World::new();

    let player = world.spawn();
    world.add_component(player, Component::Player(open_miami::components::Player));
    world.add_component(player, Component::Position(Position::new(0, 0)));
    world.add_component(player, Component::Health(Health::new(100)));

    let enemy = world.spawn();
    world.add_component(enemy, Component::Enemy(open_miami::components::Enemy));
    world.add_component(enemy, Component::Position(Position::new(30000, 0)));
    world.add_component(enemy, Component::Health(Health::new(100)));
    let mut ai = AI::new();
    ai.state = AIState::Attack;
    ai.reset_attack_timer();
    world.add_component(enemy, Component::Ai(ai));

    let mut system = CombatSystem;
    system.run(&mut world, 16000);

    assert_eq!(get_health(&world, player).current, 100);
}

fn spawn_ai_enemy(world: &mut World, pos: Position) -> open_miami::ecs::Entity {
    let enemy = world.spawn();
    world.add_component(enemy, Component::Enemy(open_miami::components::Enemy));
    world.add_component(enemy, Component::Position(pos));
    world.add_component(
        enemy,
        Component::Ai(AI::new_with_type(EnemyType::Idle, pos)),
    );
    world.add_component(enemy, Component::Velocity(Velocity::zero()));
    world.add_component(enemy, Component::Speed(Speed::new(100000)));
    world.add_component(enemy, Component::Health(Health::new(100)));
    world.add_component(enemy, Component::Rotation(Rotation::new(1000, 0)));
    enemy
}

fn spawn_ai_player(world: &mut World, pos: Position) -> open_miami::ecs::Entity {
    let player = world.spawn();
    world.add_component(player, Component::Player(open_miami::components::Player));
    world.add_component(player, Component::Position(pos));
    player
}

#[test]
fn test_ai_system_chase_when_player_in_range() {
    let mut world = World::new();

    spawn_ai_player(&mut world, Position::new(200000, 0));
    let enemy = spawn_ai_enemy(&mut world, Position::new(0, 0));

    let mut system = AISystem::new();
    for _ in 0..30 {
        system.run(&mut world, 16000);
    }

    assert_eq!(get_ai(&world, enemy).state, AIState::SurePlayerSeen);
    assert!(get_velocity(&world, enemy).x > 0);
}

#[test]
fn test_ai_system_attack_when_player_close() {
    let mut world = World::new();

    spawn_ai_player(&mut world, Position::new(30000, 0));
    let enemy = spawn_ai_enemy(&mut world, Position::new(0, 0));

    let mut system = AISystem::new();
    for _ in 0..30 {
        system.run(&mut world, 16000);
    }

    assert_eq!(get_ai(&world, enemy).state, AIState::SurePlayerSeen);
    let velocity = get_velocity(&world, enemy);
    assert_eq!(velocity.x, 0);
    assert_eq!(velocity.y, 0);
}

#[test]
fn test_ai_system_idle_when_player_far() {
    // An agent with detection range 900 units and a player 1000 units away
    // never transitions out of Unaware.
    let mut world = World::new();

    spawn_ai_player(&mut world, Position::new(1000000, 0));
    let enemy = spawn_ai_enemy(&mut world, Position::new(0, 0));

    let mut system = AISystem::new();
    for _ in 0..60 {
        system.run(&mut world, 16000);
    }

    assert_eq!(get_ai(&world, enemy).state, AIState::Unaware);
    let velocity = get_velocity(&world, enemy);
    assert_eq!(velocity.x, 0);
    assert_eq!(velocity.y, 0);
}

#[test]
fn test_ai_system_updates_attack_timer() {
    let mut world = World::new();

    spawn_ai_player(&mut world, Position::new(0, 0));

    let enemy = world.spawn();
    world.add_component(enemy, Component::Enemy(open_miami::components::Enemy));
    world.add_component(enemy, Component::Position(Position::new(0, 0)));
    let mut ai = AI::new();
    ai.reset_attack_timer();
    world.add_component(enemy, Component::Ai(ai));
    world.add_component(enemy, Component::Velocity(Velocity::zero()));
    world.add_component(enemy, Component::Speed(Speed::new(100000)));
    world.add_component(enemy, Component::Health(Health::new(100)));

    let mut system = AISystem::new();
    system.run(&mut world, 500000);

    assert_eq!(get_ai(&world, enemy).attack_timer, 500000);
}

#[test]
fn test_ai_system_multiple_enemies() {
    let mut world = World::new();

    spawn_ai_player(&mut world, Position::new(100000, 0));

    for i in 0..3i64 {
        spawn_ai_enemy(&mut world, Position::new(i * 50000, 0));
    }

    let mut system = AISystem::new();
    system.run(&mut world, 16000);

    let enemies = world.query(ComponentId::Enemy);
    assert_eq!(enemies.len(), 3);
}

#[test]
fn test_ai_pathfinding_with_wall_obstacle() {
    let mut world = World::new();

    world.add_wall(250000, 0, 20000, 300000);

    spawn_ai_player(&mut world, Position::new(350000, 150000));
    let enemy = spawn_ai_enemy(&mut world, Position::new(100000, 150000));

    let mut system = AISystem::new();
    system.run(&mut world, 16000);

    assert_eq!(get_ai(&world, enemy).state, AIState::Unaware);
    let velocity = get_velocity(&world, enemy);
    assert_eq!(velocity.x, 0);
    assert_eq!(velocity.y, 0);
}

#[test]
fn test_ai_pathfinding_around_corner() {
    let mut world = World::new();

    world.add_wall(200000, 200000, 400000, 20000);
    world.add_wall(200000, 200000, 20000, 200000);

    spawn_ai_player(&mut world, Position::new(100000, 300000));
    let enemy = spawn_ai_enemy(&mut world, Position::new(300000, 100000));

    let mut system = AISystem::new();
    system.run(&mut world, 16000);

    assert_eq!(get_ai(&world, enemy).state, AIState::Unaware);
}

#[test]
fn test_ai_pathfinding_enemy_follows_over_time() {
    let mut world = World::new();

    spawn_ai_player(&mut world, Position::new(300000, 100000));
    let enemy = spawn_ai_enemy(&mut world, Position::new(100000, 100000));

    let player_pos = Position::new(300000, 100000);
    let initial_pos = get_position(&world, enemy);
    let initial_d2 = {
        let dx = (player_pos.x - initial_pos.x) as i128;
        let dy = (player_pos.y - initial_pos.y) as i128;
        dx * dx + dy * dy
    };

    let mut ai_system = AISystem::new();
    let mut movement = MovementSystem;
    for _ in 0..30 {
        ai_system.run(&mut world, 16000);
        movement.run(&mut world, 16000);
    }

    let final_pos = get_position(&world, enemy);
    let final_d2 = {
        let dx = (player_pos.x - final_pos.x) as i128;
        let dy = (player_pos.y - final_pos.y) as i128;
        dx * dx + dy * dy
    };

    assert!(final_d2 < initial_d2);
}

#[test]
fn test_ai_cannot_see_player_outside_vision_cone() {
    let mut world = World::new();

    spawn_ai_player(&mut world, Position::new(100000, 0));

    let enemy = world.spawn();
    world.add_component(enemy, Component::Enemy(open_miami::components::Enemy));
    let enemy_pos = Position::new(0, 0);
    world.add_component(enemy, Component::Position(enemy_pos));
    world.add_component(
        enemy,
        Component::Ai(AI::new_with_type(EnemyType::Idle, enemy_pos)),
    );
    world.add_component(enemy, Component::Velocity(Velocity::zero()));
    world.add_component(enemy, Component::Speed(Speed::new(100000)));
    world.add_component(enemy, Component::Health(Health::new(100)));
    // Facing straight down: the player to the right sits outside the
    // ninety-degree cone.
    world.add_component(enemy, Component::Rotation(Rotation::new(0, 1000)));

    let mut system = AISystem::new();
    for _ in 0..30 {
        system.run(&mut world, 16000);
    }

    assert_eq!(get_ai(&world, enemy).state, AIState::Unaware);
    let velocity = get_velocity(&world, enemy);
    assert_eq!(velocity.x, 0);
    assert_eq!(velocity.y, 0);

    let rotation = world
        .get_component(enemy, ComponentId::Rotation)
        .unwrap()
        .as_rotation()
        .unwrap();
    assert_eq!(rotation, Rotation::new(0, 1000));
}

#[test]
fn test_ai_can_see_player_behind_when_turned_around() {
    let mut world = World::new();

    spawn_ai_player(&mut world, Position::new(-100000, 0));

    let enemy = world.spawn();
    world.add_component(enemy, Component::Enemy(open_miami::components::Enemy));
    let enemy_pos = Position::new(0, 0);
    world.add_component(enemy, Component::Position(enemy_pos));
    world.add_component(
        enemy,
        Component::Ai(AI::new_with_type(EnemyType::Idle, enemy_pos)),
    );
    world.add_component(enemy, Component::Velocity(Velocity::zero()));
    world.add_component(enemy, Component::Speed(Speed::new(100000)));
    world.add_component(enemy, Component::Health(Health::new(100)));
    // Facing right, away from the player behind.
    world.add_component(enemy, Component::Rotation(Rotation::new(1000, 0)));

    let mut system = AISystem::new();
    for _ in 0..5 {
        system.run(&mut world, 16000);
    }

    assert_eq!(get_ai(&world, enemy).state, AIState::Unaware);

    // Turn the enemy around to face the player.
    world.add_component(enemy, Component::Rotation(Rotation::new(-1000, 0)));

    for _ in 0..30 {
        system.run(&mut world, 16000);
    }

    assert_eq!(get_ai(&world, enemy).state, AIState::SurePlayerSeen);
}
