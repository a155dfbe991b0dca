//! Tests for the entity registry and component store.

use open_miami::components::{Health, Position, Velocity};
use open_miami::ecs::{Component, ComponentId, Entity, Query, QueryMut, World};

#[test]
fn test_entity_creation() {
    let entity = Entity::new(42);
    assert_eq!(entity.id(), 42);
}

#[test]
fn test_entity_equality() {
    let e1 = Entity::new(1);
    let e2 = Entity::new(1);
    let e3 = Entity::new(2);

    assert_eq!(e1, e2);
    assert_ne!(e1, e3);
}

#[test]
fn test_entity_copy() {
    let e1 = Entity::new(5);
    let e2 = e1;
    assert_eq!(e1, e2);
}

#[test]
fn test_component_id_uniqueness() {
    let pos_id = ComponentId::of(&Component::Position(Position::new(0, 0)));
    let vel_id = ComponentId::of(&Component::Velocity(Velocity::new(0, 0)));

    assert_ne!(pos_id, vel_id);
}

#[test]
fn test_component_id_consistency() {
    let id1 = ComponentId::of(&Component::Position(Position::new(1, 2)));
    let id2 = ComponentId::of(&Component::Position(Position::new(3, 4)));

    assert_eq!(id1, id2);
}

#[test]
fn test_spawn_entity() {
    let mut world = World::new();
    let e1 = world.spawn();
    let e2 = world.spawn();

    assert_ne!(e1, e2);
    assert_eq!(e1.id(), 0);
    assert_eq!(e2.id(), 1);
}

#[test]
fn test_add_and_get_component() {
    let mut world = World::new();
    let entity = world.spawn();

    world.add_component(entity, Component::Position(Position::new(10000, 20000)));

    let pos = world
        .get_component(entity, ComponentId::Position)
        .unwrap()
        .as_position()
        .unwrap();
    assert_eq!(pos.x, 10000);
    assert_eq!(pos.y, 20000);
}

#[test]
fn test_get_component_mut() {
    let mut world = World::new();
    let entity = world.spawn();

    world.add_component(entity, Component::Position(Position::new(10000, 20000)));

    {
        let slot = world.get_component_mut(entity, ComponentId::Position).unwrap();
        if let Component::Position(p) = slot {
            p.x = 30000;
        }
    }

    let pos = world
        .get_component(entity, ComponentId::Position)
        .unwrap()
        .as_position()
        .unwrap();
    assert_eq!(pos.x, 30000);
}

#[test]
fn test_has_component() {
    let mut world = World::new();
    let entity = world.spawn();

    assert!(!world.has_component(entity, ComponentId::Position));

    world.add_component(entity, Component::Position(Position::new(0, 0)));

    assert!(world.has_component(entity, ComponentId::Position));
    assert!(!world.has_component(entity, ComponentId::Velocity));
}

#[test]
fn test_remove_component() {
    let mut world = World::new();
    let entity = world.spawn();

    world.add_component(entity, Component::Position(Position::new(10000, 20000)));
    assert!(world.has_component(entity, ComponentId::Position));

    let removed = world
        .remove_component(entity, ComponentId::Position)
        .unwrap()
        .as_position()
        .unwrap();
    assert_eq!(removed.x, 10000);
    assert!(!world.has_component(entity, ComponentId::Position));
}

#[test]
fn test_despawn_entity() {
    let mut world = World::new();
    let entity = world.spawn();

    world.add_component(entity, Component::Position(Position::new(10000, 20000)));
    world.add_component(entity, Component::Velocity(Velocity::new(1000, 2000)));

    world.despawn(entity);

    assert!(!world.has_component(entity, ComponentId::Position));
    assert!(!world.has_component(entity, ComponentId::Velocity));
    assert_eq!(world.entities().len(), 0);
}

#[test]
fn test_query_single_component() {
    let mut world = World::new();

    let e1 = world.spawn();
    world.add_component(e1, Component::Position(Position::new(1000, 2000)));

    let e2 = world.spawn();
    world.add_component(e2, Component::Position(Position::new(3000, 4000)));

    let e3 = world.spawn();
    world.add_component(e3, Component::Velocity(Velocity::new(5000, 6000)));

    let entities = world.query(ComponentId::Position);
    assert_eq!(entities.len(), 2);
    assert!(entities.contains(&e1));
    assert!(entities.contains(&e2));
    assert!(!entities.contains(&e3));
}

#[test]
fn test_query_with_two_components() {
    let mut world = World::new();

    let e1 = world.spawn();
    world.add_component(e1, Component::Position(Position::new(1000, 2000)));
    world.add_component(e1, Component::Velocity(Velocity::new(1000, 1000)));

    let e2 = world.spawn();
    world.add_component(e2, Component::Position(Position::new(3000, 4000)));

    let e3 = world.spawn();
    world.add_component(e3, Component::Velocity(Velocity::new(5000, 6000)));

    let entities = world.query_with(ComponentId::Position, ComponentId::Velocity);
    assert_eq!(entities.len(), 1);
    assert_eq!(entities[0], e1);
}

#[test]
fn test_query_with_three_components() {
    let mut world = World::new();

    let e1 = world.spawn();
    world.add_component(e1, Component::Position(Position::new(1000, 2000)));
    world.add_component(e1, Component::Velocity(Velocity::new(1000, 1000)));
    world.add_component(e1, Component::Health(Health::new(100)));

    let e2 = world.spawn();
    world.add_component(e2, Component::Position(Position::new(3000, 4000)));
    world.add_component(e2, Component::Velocity(Velocity::new(2000, 2000)));

    let entities = world.query_with3(
        ComponentId::Position,
        ComponentId::Velocity,
        ComponentId::Health,
    );
    assert_eq!(entities.len(), 1);
    assert_eq!(entities[0], e1);
}

#[test]
fn test_multiple_entities_different_components() {
    let mut world = World::new();

    for i in 0..100u64 {
        let entity = world.spawn();
        world.add_component(
            entity,
            Component::Position(Position::new(i as i64, i as i64)),
        );

        if i % 2 == 0 {
            world.add_component(entity, Component::Velocity(Velocity::new(1000, 1000)));
        }

        if i % 3 == 0 {
            world.add_component(entity, Component::Health(Health::new(100)));
        }
    }

    assert_eq!(world.query(ComponentId::Position).len(), 100);
    assert_eq!(world.query(ComponentId::Velocity).len(), 50);
    assert_eq!(world.query(ComponentId::Health).len(), 34);
}

#[test]
fn test_clear_world() {
    let mut world = World::new();

    for i in 0..10i64 {
        let entity = world.spawn();
        world.add_component(entity, Component::Position(Position::new(i * 1000, 0)));
    }

    assert_eq!(world.entities().len(), 10);

    world.clear();

    assert_eq!(world.entities().len(), 0);
    assert_eq!(world.query(ComponentId::Position).len(), 0);
}

#[test]
fn test_query_iter() {
    let mut world = World::new();

    let e1 = world.spawn();
    world.add_component(e1, Component::Position(Position::new(1000, 2000)));

    let e2 = world.spawn();
    world.add_component(e2, Component::Position(Position::new(3000, 4000)));

    let query = Query::new(&world, ComponentId::Position);
    let results = query.iter();

    assert_eq!(results.len(), 2);
}

#[test]
fn test_query_mut_iter() {
    let mut world = World::new();

    let e1 = world.spawn();
    world.add_component(e1, Component::Position(Position::new(1000, 2000)));

    let e2 = world.spawn();
    world.add_component(e2, Component::Position(Position::new(3000, 4000)));

    {
        let query = QueryMut::new(&world, ComponentId::Position);
        for e in query.entities().clone() {
            let pos = world
                .get_component(e, ComponentId::Position)
                .unwrap()
                .as_position()
                .unwrap();
            world.add_component(
                e,
                Component::Position(Position::new(pos.x + 10000, pos.y)),
            );
        }
    }

    let pos1 = world
        .get_component(e1, ComponentId::Position)
        .unwrap()
        .as_position()
        .unwrap();
    let pos2 = world
        .get_component(e2, ComponentId::Position)
        .unwrap()
        .as_position()
        .unwrap();

    assert_eq!(pos1.x, 11000);
    assert_eq!(pos2.x, 13000);
}
