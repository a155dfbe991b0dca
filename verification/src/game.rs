//! Game setup and entity spawning, and the simple world queries the
//! presentation layer reads each frame.

use crate::components::{
    Bullet, Enemy, Health, Player, Position, Radius, Rotation, Speed, Velocity, Weapon,
    WeaponType, AI,
};
use crate::ecs::component::{Component, ComponentId};
use crate::ecs::entity::Entity;
use crate::ecs::world::World;
use vstd::prelude::*;

verus! {

/// The component kit of a freshly spawned player at `position`.
pub open spec fn player_kit_at(w: World, e: Entity, position: Position) -> bool {
    &&& w.lookup(e, ComponentId::Player) == Some(Component::Player(Player))
    &&& w.lookup(e, ComponentId::Position) == Some(Component::Position(position))
    &&& w.lookup(e, ComponentId::Velocity) == Some(Component::Velocity(Velocity { x: 0, y: 0 }))
    &&& w.lookup(e, ComponentId::Speed) == Some(Component::Speed(Speed { value: 200000 }))
    &&& w.lookup(e, ComponentId::Health) == Some(
        Component::Health(Health { current: 100, max: 100 }),
    )
    &&& w.lookup(e, ComponentId::Rotation) == Some(
        Component::Rotation(Rotation { x: 1000, y: 0 }),
    )
    &&& w.lookup(e, ComponentId::Radius) == Some(Component::Radius(Radius { value: 15000 }))
    &&& (match w.lookup(e, ComponentId::Weapon) {
        Some(Component::Weapon(wp)) => wp.weapon_type == WeaponType::Pistol && wp.ammo == 12
            && wp.damage == 50,
        _ => false,
    })
}

/// The component kit of a freshly spawned enemy at `position`.
pub open spec fn enemy_kit_at(w: World, e: Entity, position: Position) -> bool {
    &&& w.lookup(e, ComponentId::Enemy) == Some(Component::Enemy(Enemy))
    &&& w.lookup(e, ComponentId::Position) == Some(Component::Position(position))
    &&& w.lookup(e, ComponentId::Velocity) == Some(Component::Velocity(Velocity { x: 0, y: 0 }))
    &&& w.lookup(e, ComponentId::Speed) == Some(Component::Speed(Speed { value: 100000 }))
    &&& w.lookup(e, ComponentId::Health) == Some(
        Component::Health(Health { current: 50, max: 50 }),
    )
    &&& w.lookup(e, ComponentId::Radius) == Some(Component::Radius(Radius { value: 12000 }))
    &&& w.lookup(e, ComponentId::Rotation) == Some(
        Component::Rotation(Rotation { x: 1000, y: 0 }),
    )
    &&& w.lookup(e, ComponentId::Ai) == Some(Component::Ai(AI::default_spec()))
}

/// Spawns a player entity with the standard kit.
pub fn spawn_player(world: &mut World, position: Position) -> (r: Entity)
    requires
        old(world).wf(),
        old(world).ids_below_next(),
        old(world).next_id() < u64::MAX,
    ensures
        final (world).wf(),
        final (world).ids_below_next(),
        r.0 == old(world).next_id(),
        final (world).next_id() == old(world).next_id() + 1,
        final (world).live() == old(world).live().push(r),
        final (world).walls_view() == old(world).walls_view(),
        player_kit_at(*final (world), r, position),
        forall|key: (u64, ComponentId)| #[trigger]
            old(world).cmap().contains_key(key) ==> final (world).cmap().contains_key(key)
                && final (world).cmap()[key] == old(world).cmap()[key],
        final (world).query_spec(ComponentId::Player) == old(world).query_spec(
            ComponentId::Player,
        ).push(r),
        final (world).query_spec(ComponentId::Enemy) == old(world).query_spec(
            ComponentId::Enemy,
        ),
        old(world).bounded() && crate::components::pos_bounded(position) ==> final (world).bounded(),
    {
        let entity = world.spawn();
        proof {
            assert forall|k2: ComponentId|
                !old(world).cmap().contains_key((entity.0, k2)) by {
                if old(world).cmap().contains_key((entity.0, k2)) {
                    assert(entity.0 < old(world).next_id());
                }
            }
        }
        world.add_component(entity, Component::Player(Player));
        world.add_component(entity, Component::Position(position));
        world.add_component(entity, Component::Velocity(Velocity { x: 0, y: 0 }));
        world.add_component(entity, Component::Speed(Speed { value: 200000 }));
        world.add_component(entity, Component::Health(Health { current: 100, max: 100 }));
        world.add_component(entity, Component::Rotation(Rotation { x: 1000, y: 0 }));
        world.add_component(entity, Component::Radius(Radius { value: 15000 }));
        world.add_component(entity, Component::Weapon(Weapon::new(WeaponType::Pistol)));
        entity
    }

/// Spawns an enemy entity with the standard kit.
pub fn spawn_enemy(world: &mut World, position: Position) -> (r: Entity)
    requires
        old(world).wf(),
        old(world).ids_below_next(),
        old(world).next_id() < u64::MAX,
    ensures
        final (world).wf(),
        final (world).ids_below_next(),
        r.0 == old(world).next_id(),
        final (world).next_id() == old(world).next_id() + 1,
        final (world).live() == old(world).live().push(r),
        final (world).walls_view() == old(world).walls_view(),
        enemy_kit_at(*final (world), r, position),
        forall|key: (u64, ComponentId)| #[trigger]
            old(world).cmap().contains_key(key) ==> final (world).cmap().contains_key(key)
                && final (world).cmap()[key] == old(world).cmap()[key],
        final (world).query_spec(ComponentId::Enemy) == old(world).query_spec(
            ComponentId::Enemy,
        ).push(r),
        final (world).query_spec(ComponentId::Player) == old(world).query_spec(
            ComponentId::Player,
        ),
        old(world).bounded() && crate::components::pos_bounded(position) ==> final (world).bounded(),
    {
        let entity = world.spawn();
        proof {
            assert forall|k2: ComponentId|
                !old(world).cmap().contains_key((entity.0, k2)) by {
                if old(world).cmap().contains_key((entity.0, k2)) {
                    assert(entity.0 < old(world).next_id());
                }
            }
        }
        world.add_component(entity, Component::Enemy(Enemy));
        world.add_component(entity, Component::Position(position));
        world.add_component(entity, Component::Velocity(Velocity { x: 0, y: 0 }));
        world.add_component(entity, Component::Speed(Speed { value: 100000 }));
        world.add_component(entity, Component::Health(Health { current: 50, max: 50 }));
        world.add_component(entity, Component::Radius(Radius { value: 12000 }));
        world.add_component(entity, Component::Rotation(Rotation { x: 1000, y: 0 }));
        world.add_component(entity, Component::Ai(AI::new()));
        entity
    }

/// The walls of level layout `level` (levels beyond the designed set share
/// the arena layout), in milli-units.
fn add_level_walls(world: &mut World, level: usize)
    requires
        old(world).wf(),
    ensures
        final (world).wf() == old(world).wf(),
        final (world).wf(),
        final (world).live() == old(world).live(),
        final (world).cmap() == old(world).cmap(),
        final (world).next_id() == old(world).next_id(),
        final (world).walls_view().len() == old(world).walls_view().len() + 4,
        forall|i: int|
            old(world).walls_view().len() <= i < final (world).walls_view().len()
                ==> crate::pathfinding::wall_bounded(#[trigger] final (world).walls_view()[i]),
        forall|i: int|
            0 <= i < old(world).walls_view().len() ==> #[trigger] final (world).walls_view()[i]
                == old(world).walls_view()[i],
        forall|k: ComponentId| #[trigger]
            final (world).query_spec(k) == old(world).query_spec(k),
        old(world).bounded() ==> final (world).bounded(),
{
    proof {
        assert(final (world).cmap() == old(world).cmap() ==> true);
    }
    if level == 0 {
        world.add_wall(200000, 200000, 400000, 20000);
        world.add_wall(200000, 200000, 20000, 200000);
        world.add_wall(800000, 300000, 20000, 300000);
        world.add_wall(400000, 600000, 300000, 20000);
    } else if level == 1 {
        world.add_wall(400000, 100000, 20000, 400000);
        world.add_wall(200000, 300000, 400000, 20000);
        world.add_wall(700000, 400000, 20000, 300000);
        world.add_wall(150000, 600000, 300000, 20000);
    } else if level == 2 {
        world.add_wall(300000, 150000, 300000, 20000);
        world.add_wall(600000, 150000, 20000, 300000);
        world.add_wall(300000, 450000, 300000, 20000);
        world.add_wall(300000, 150000, 20000, 300000);
    } else if level == 3 {
        world.add_wall(250000, 250000, 150000, 20000);
        world.add_wall(250000, 250000, 20000, 150000);
        world.add_wall(700000, 350000, 150000, 20000);
        world.add_wall(700000, 350000, 20000, 200000);
    } else if level == 4 {
        world.add_wall(200000, 150000, 20000, 250000);
        world.add_wall(400000, 200000, 20000, 300000);
        world.add_wall(600000, 150000, 20000, 250000);
        world.add_wall(300000, 500000, 400000, 20000);
    } else if level == 5 {
        world.add_wall(300000, 250000, 60000, 60000);
        world.add_wall(600000, 250000, 60000, 60000);
        world.add_wall(300000, 500000, 60000, 60000);
        world.add_wall(600000, 500000, 60000, 60000);
    } else if level == 6 {
        world.add_wall(250000, 300000, 300000, 20000);
        world.add_wall(450000, 300000, 20000, 200000);
        world.add_wall(700000, 200000, 20000, 300000);
        world.add_wall(250000, 550000, 200000, 20000);
    } else if level == 7 {
        world.add_wall(300000, 200000, 400000, 20000);
        world.add_wall(680000, 200000, 20000, 300000);
        world.add_wall(300000, 480000, 400000, 20000);
        world.add_wall(300000, 280000, 20000, 200000);
    } else if level == 8 {
        world.add_wall(350000, 200000, 20000, 400000);
        world.add_wall(550000, 200000, 20000, 400000);
        world.add_wall(200000, 350000, 500000, 20000);
        world.add_wall(200000, 500000, 500000, 20000);
    } else if level == 9 {
        world.add_wall(250000, 200000, 20000, 250000);
        world.add_wall(250000, 430000, 150000, 20000);
        world.add_wall(650000, 300000, 20000, 250000);
        world.add_wall(500000, 300000, 150000, 20000);
    } else if level == 10 {
        world.add_wall(200000, 250000, 250000, 20000);
        world.add_wall(450000, 250000, 20000, 150000);
        world.add_wall(450000, 400000, 250000, 20000);
        world.add_wall(700000, 400000, 20000, 150000);
    } else {
        world.add_wall(400000, 250000, 200000, 20000);
        world.add_wall(400000, 500000, 200000, 20000);
        world.add_wall(300000, 350000, 20000, 100000);
        world.add_wall(680000, 350000, 20000, 100000);
    }
}

/// The spawn position of ring enemy `t` in level `level`: a point on a
/// ring of level-dependent radius around the arena's middle, with a small
/// per-slot variation.
pub open spec fn ring_pos(level: int, t: int) -> Position {
    let radius = 250000 + (level * 13700) % 100000;
    let c = crate::systems::ai::dir_vec_spec((3 * t) as u32).0;
    let sn = crate::systems::ai::dir_vec_spec((3 * t) as u32).1;
    let vx = ((t * 17 + level * 23) % 100 - 50) * 1000;
    let vy = ((t * 31 + level * 19) % 100 - 50) * 1000;
    Position {
        x: (500000 + crate::num::scale_spec(c, radius, 1000) + vx) as i64,
        y: (400000 + crate::num::scale_spec(sn, radius, 1000) + vy) as i64,
    }
}

/// Initialises a new game world: spawns the player at the fixed start, lays
/// out the level's four walls, and spawns the level's enemies — four in the
/// first layout, twelve arranged on a ring in the others.
pub fn initialize_game(world: &mut World, level: usize)
    requires
        old(world).wf(),
        old(world).ids_below_next(),
        old(world).bounded(),
        old(world).live() == Seq::<Entity>::empty(),
        old(world).cmap() == Map::<(u64, ComponentId), Component>::empty(),
        old(world).next_id() + 16 < u64::MAX,
        level <= 100000,
    ensures
        final (world).wf(),
        final (world).bounded(),
        final (world).query_spec(ComponentId::Player).len() == 1,
        final (world).query_spec(ComponentId::Enemy).len() == if level == 0 {
            4int
        } else {
            12int
        },
        final (world).walls_view().len() == old(world).walls_view().len() + 4,
        player_kit_at(
            *final (world),
            final (world).query_spec(ComponentId::Player)[0],
            Position { x: 400000, y: 300000 },
        ),
        level == 0 ==> ({
            let base = old(world).next_id();
            &&& enemy_kit_at(
                *final (world),
                Entity((base + 1) as u64),
                Position { x: 600000, y: 300000 },
            )
            &&& enemy_kit_at(
                *final (world),
                Entity((base + 2) as u64),
                Position { x: 800000, y: 400000 },
            )
            &&& enemy_kit_at(
                *final (world),
                Entity((base + 3) as u64),
                Position { x: 300000, y: 500000 },
            )
            &&& enemy_kit_at(
                *final (world),
                Entity((base + 4) as u64),
                Position { x: 700000, y: 200000 },
            )
        }),
        level != 0 ==> forall|t: int|
            0 <= t < 12 ==> enemy_kit_at(
                *final (world),
                Entity((old(world).next_id() + 1 + t) as u64),
                #[trigger] ring_pos(level as int, t),
            ),
{
    proof {
        assert forall|k: ComponentId| #[trigger]
            old(world).query_spec(k).len() == 0 by {
            crate::ecs::world::lemma_query_exact(*old(world), k);
            if old(world).query_spec(k).len() > 0 {
                assert(old(world).query_spec(k).contains(old(world).query_spec(k)[0]));
            }
        }
        assert(old(world).query_spec(ComponentId::Player) =~= Seq::<Entity>::empty());
        assert(old(world).query_spec(ComponentId::Enemy) =~= Seq::<Entity>::empty());
    }
    let player = spawn_player(world, Position { x: 400000, y: 300000 });
    add_level_walls(world, level);
    let ghost walls_after = world.walls_view();
    if level == 0 {
        let e1 = spawn_enemy(world, Position { x: 600000, y: 300000 });
        let e2 = spawn_enemy(world, Position { x: 800000, y: 400000 });
        let e3 = spawn_enemy(world, Position { x: 300000, y: 500000 });
        let e4 = spawn_enemy(world, Position { x: 700000, y: 200000 });
        proof {
            assert(player_kit_at(
                *world,
                world.query_spec(ComponentId::Player)[0],
                Position { x: 400000, y: 300000 },
            ));
            assert(e1.0 == old(world).next_id() + 1 && e2.0 == old(world).next_id() + 2 && e3.0
                == old(world).next_id() + 3 && e4.0 == old(world).next_id() + 4);
            assert(enemy_kit_at(*world, e1, Position { x: 600000, y: 300000 }));
            assert(enemy_kit_at(*world, e2, Position { x: 800000, y: 400000 }));
            assert(enemy_kit_at(*world, e3, Position { x: 300000, y: 500000 }));
            assert(enemy_kit_at(*world, e4, Position { x: 700000, y: 200000 }));
        }
    } else {
        // Twelve enemies on a ring around the arena's middle, with a
        // level-dependent radius and a little per-slot variation.
        let offset: i64 = ((level as i64) * 13700) % 100000;
        proof {
            vstd::arithmetic::div_mod::lemma_mod_bound((level as i64) * 13700, 100000);
        }
        let radius: i64 = 250000 + offset;
        let mut i: usize = 0;
        while i < 12
            invariant
                world.wf(),
                world.ids_below_next(),
                world.bounded(),
                world.next_id() + (12 - i) < u64::MAX,
                i <= 12,
                world.next_id() == old(world).next_id() + 1 + i,
                world.walls_view() == walls_after,
                walls_after.len() == old(world).walls_view().len() + 4,
                level != 0,
                radius == 250000 + ((level * 13700) as int) % 100000,
                250000 <= radius <= 350000,
                level <= 100000,
                world.query_spec(ComponentId::Player).len() == 1,
                world.query_spec(ComponentId::Enemy).len() == i,
                player_kit_at(
                    *world,
                    world.query_spec(ComponentId::Player)[0],
                    Position { x: 400000, y: 300000 },
                ),
                forall|t: int|
                    0 <= t < i ==> enemy_kit_at(
                        *world,
                        Entity((old(world).next_id() + 1 + t) as u64),
                        #[trigger] ring_pos(level as int, t),
                    ),
            decreases 12 - i,
        {
            let (c, sn) = crate::systems::ai::dir_vec((i as u32) * 3);
            proof {
                lemma_ring_coordinate(c as int, radius as int);
                lemma_ring_coordinate(sn as int, radius as int);
            }
            let ox = crate::num::scale64(c, radius, 1000);
            let oy = crate::num::scale64(sn, radius, 1000);
            let x0 = 500000 + ox;
            let y0 = 400000 + oy;
            let vx = (((i * 17 + level * 23) % 100) as i64 - 50) * 1000;
            let vy = (((i * 31 + level * 19) % 100) as i64 - 50) * 1000;
            proof {
                vstd::arithmetic::div_mod::lemma_mod_bound(
                    (i * 17 + level * 23) as int,
                    100,
                );
                vstd::arithmetic::div_mod::lemma_mod_bound(
                    (i * 31 + level * 19) as int,
                    100,
                );
            }
            let ghost before = *world;
            let spawned = spawn_enemy(world, Position { x: x0 + vx, y: y0 + vy });
            proof {
                assert(world.query_spec(ComponentId::Player) == before.query_spec(
                    ComponentId::Player,
                ));
                assert(Position { x: (x0 + vx) as i64, y: (y0 + vy) as i64 } == ring_pos(
                    level as int,
                    i as int,
                ));
                assert(spawned.0 == old(world).next_id() + 1 + i);
                assert(enemy_kit_at(*world, spawned, ring_pos(level as int, i as int)));
                assert forall|t: int| 0 <= t < i + 1 implies enemy_kit_at(
                    *world,
                    Entity((old(world).next_id() + 1 + t) as u64),
                    #[trigger] ring_pos(level as int, t),
                ) by {
                    if t < i {
                        assert(enemy_kit_at(
                            before,
                            Entity((old(world).next_id() + 1 + t) as u64),
                            ring_pos(level as int, t),
                        ));
                    }
                }
            }
            i = i + 1;
        }
    }
}

/// A scaled ring offset stays within three hundred and fifty world units.
proof fn lemma_ring_coordinate(c: int, radius: int)
    requires
        -1000 <= c <= 1000,
        250000 <= radius <= 350000,
    ensures
        0 <= crate::num::abs_spec(c) * radius / 1000 <= 350000,
{
    let m = crate::num::abs_spec(c);
    assert(0 <= m * radius <= 350000000) by (nonlinear_arith)
        requires
            0 <= m <= 1000,
            250000 <= radius <= 350000,
    ;
    vstd::arithmetic::div_mod::lemma_div_is_ordered(0, m * radius, 1000);
    vstd::arithmetic::div_mod::lemma_div_is_ordered(m * radius, 350000000, 1000);
    vstd::arithmetic::div_mod::lemma_fundamental_div_mod_converse(350000000, 1000, 350000, 0);
}

/// The id of the first player entity, if any.
pub open spec fn player_id(w: World) -> Option<u64> {
    if w.query_spec(ComponentId::Player).len() > 0 {
        Some(w.query_spec(ComponentId::Player)[0].0)
    } else {
        None
    }
}

/// Whether the first player entity is alive: it exists, has health, and
/// that health is positive.
pub open spec fn player_alive_spec(w: World) -> bool {
    &&& w.query_spec(ComponentId::Player).len() > 0
    &&& match w.lookup(w.query_spec(ComponentId::Player)[0], ComponentId::Health) {
        Some(Component::Health(h)) => h.current > 0,
        _ => false,
    }
}

/// Whether the player is alive.
pub fn is_player_alive(world: &World) -> (r: bool)
    requires
        world.wf(),
    ensures
        r == player_alive_spec(*world),
{
    let players = world.query(ComponentId::Player);
    if players.len() == 0 {
        return false;
    }
    let e = players[0];
    match world.get_component(e, ComponentId::Health) {
        Some(Component::Health(h)) => h.is_alive(),
        _ => {
            proof {
                if world.cmap().contains_key((e.0, ComponentId::Health)) {
                    crate::ecs::world::World::lemma_lookup_kind(*world, e, ComponentId::Health);
                }
            }
            false
        },
    }
}

/// The player's current health, or zero without a player or health.
pub fn get_player_health(world: &World) -> (r: i32)
    requires
        world.wf(),
    ensures
        r == (if world.query_spec(ComponentId::Player).len() > 0 {
            match world.lookup(world.query_spec(ComponentId::Player)[0], ComponentId::Health) {
                Some(Component::Health(h)) => h.current as int,
                _ => 0int,
            }
        } else {
            0int
        }),
{
    let players = world.query(ComponentId::Player);
    if players.len() == 0 {
        return 0;
    }
    let e = players[0];
    match world.get_component(e, ComponentId::Health) {
        Some(Component::Health(h)) => h.current,
        _ => {
            proof {
                if world.cmap().contains_key((e.0, ComponentId::Health)) {
                    crate::ecs::world::World::lemma_lookup_kind(*world, e, ComponentId::Health);
                }
            }
            0
        },
    }
}

/// The player's remaining ammunition, or zero without a player or weapon.
pub fn get_player_ammo(world: &World) -> (r: i32)
    requires
        world.wf(),
    ensures
        r == (if world.query_spec(ComponentId::Player).len() > 0 {
            match world.lookup(world.query_spec(ComponentId::Player)[0], ComponentId::Weapon) {
                Some(Component::Weapon(w)) => w.ammo as int,
                _ => 0int,
            }
        } else {
            0int
        }),
{
    let players = world.query(ComponentId::Player);
    if players.len() == 0 {
        return 0;
    }
    let e = players[0];
    match world.get_component(e, ComponentId::Weapon) {
        Some(Component::Weapon(w)) => w.ammo,
        _ => {
            proof {
                if world.cmap().contains_key((e.0, ComponentId::Weapon)) {
                    crate::ecs::world::World::lemma_lookup_kind(*world, e, ComponentId::Weapon);
                }
            }
            0
        },
    }
}

/// The player's position, if a player with a position exists.
pub fn get_player_position(world: &World) -> (r: Option<Position>)
    requires
        world.wf(),
    ensures
        r == (if world.query_spec(ComponentId::Player).len() > 0 {
            match world.lookup(world.query_spec(ComponentId::Player)[0], ComponentId::Position) {
                Some(Component::Position(p)) => Some(p),
                _ => None::<Position>,
            }
        } else {
            None::<Position>
        }),
{
    let players = world.query(ComponentId::Player);
    if players.len() == 0 {
        return None;
    }
    let e = players[0];
    match world.get_component(e, ComponentId::Position) {
        Some(Component::Position(p)) => Some(p),
        _ => {
            proof {
                if world.cmap().contains_key((e.0, ComponentId::Position)) {
                    crate::ecs::world::World::lemma_lookup_kind(*world, e, ComponentId::Position);
                }
            }
            None
        },
    }
}

/// How many of the listed entities are alive by their health component.
pub open spec fn alive_count(w: World, s: Seq<Entity>) -> int
    decreases s.len(),
{
    if s.len() == 0 {
        0
    } else {
        alive_count(w, s.drop_last()) + (match w.lookup(s.last(), ComponentId::Health) {
            Some(Component::Health(h)) => if h.current > 0 {
                1int
            } else {
                0int
            },
            _ => 0int,
        })
    }
}

/// The number of enemies that are still alive.
pub fn count_alive_enemies(world: &World) -> (r: usize)
    requires
        world.wf(),
    ensures
        r == alive_count(*world, world.query_spec(ComponentId::Enemy)),
{
    let enemies = world.query(ComponentId::Enemy);
    let n = enemies.len();
    let mut count: usize = 0;
    let mut k: usize = 0;
    while k < n
        invariant
            world.wf(),
            n == enemies@.len(),
            k <= n,
            count <= k,
            enemies@ == world.query_spec(ComponentId::Enemy),
            count == alive_count(*world, enemies@.take(k as int)),
        decreases n - k,
    {
        let e = enemies[k];
        proof {
            assert(enemies@.take(k + 1).drop_last() =~= enemies@.take(k as int));
            assert(enemies@.take(k + 1).last() == enemies@[k as int]);
        }
        match world.get_component(e, ComponentId::Health) {
            Some(Component::Health(h)) => {
                if h.is_alive() {
                    count = count + 1;
                }
            },
            _ => {
            },
        }
        k = k + 1;
    }
    proof {
        assert(enemies@.take(n as int) =~= enemies@);
    }
    count
}

} // verus!
