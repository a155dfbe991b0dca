//! Systems for transient projectiles: visual trails that fade out and
//! physical bullets that fly, hit walls or enemies, and expire.

use crate::collision::circle_circle_collision;
use crate::components::{Bullet, Position, ProjectileTrail, Velocity};
use crate::ecs::component::{Component, ComponentId};
use crate::ecs::entity::Entity;
use crate::ecs::system::{System, MAX_FRAME_DT};
use crate::ecs::world::{keys_of_entity, World};
use vstd::prelude::*;

verus! {

/// One frame of lifetime decay for a trail.
pub open spec fn trail_step(t: ProjectileTrail, dt: int) -> ProjectileTrail {
    ProjectileTrail {
        lifetime: if t.lifetime - dt >= crate::num::TIMER_FLOOR {
            t.lifetime - dt
        } else {
            crate::num::TIMER_FLOOR as int
        } as i64,
        ..t
    }
}

/// System that updates projectile trails and removes the expired ones.
pub struct ProjectileTrailSystem;

impl ProjectileTrailSystem {
    /// Ages every trail by `dt` and despawns entities whose trail has run
    /// out; every trail still stored afterwards is alive, every aged trail
    /// that stays alive is kept, and components of other kinds are
    /// untouched wherever their entity survives.
    pub fn run(&mut self, world: &mut World, dt: i64)
        requires
            old(world).wf(),
            old(world).bounded(),
            0 <= dt <= MAX_FRAME_DT,
        ensures
            final (world).wf(),
            final (world).walls_view() == old(world).walls_view(),
            final (world).next_id() == old(world).next_id(),
            forall|x: Entity|
                final (world).live().contains(x) ==> old(world).live().contains(x),
            forall|key: (u64, ComponentId)| #[trigger]
                final (world).cmap().contains_key(key) ==> old(world).cmap().contains_key(key)
                    && final (world).cmap()[key] == (if key.1 == ComponentId::ProjectileTrail {
                    match old(world).cmap()[key] {
                        Component::ProjectileTrail(t) => Component::ProjectileTrail(
                            trail_step(t, dt as int),
                        ),
                        c => c,
                    }
                } else {
                    old(world).cmap()[key]
                }),
            forall|key: (u64, ComponentId)| #[trigger]
                final (world).cmap().contains_key(key) && key.1 == ComponentId::ProjectileTrail
                    ==> (match final (world).cmap()[key] {
                    Component::ProjectileTrail(t) => t.lifetime > 0,
                    _ => true,
                }),
            forall|key: (u64, ComponentId)| #[trigger]
                old(world).cmap().contains_key(key) && key.1 == ComponentId::ProjectileTrail
                    && (match old(world).cmap()[key] {
                    Component::ProjectileTrail(t) => trail_step(t, dt as int).lifetime > 0,
                    _ => true,
                }) ==> final (world).cmap().contains_key(key),
    {
        let ents = world.query(ComponentId::ProjectileTrail);
        let n = ents.len();
        proof {
            crate::ecs::world::lemma_query_exact(*world, ComponentId::ProjectileTrail);
        }
        let mut dead: Vec<Entity> = Vec::new();
        let mut k: usize = 0;
        while k < n
            invariant
                world.wf(),
                old(world).bounded(),
                0 <= dt <= MAX_FRAME_DT,
                n == ents@.len(),
                k <= n,
                ents@ == old(world).query_spec(ComponentId::ProjectileTrail),
                forall|e: Entity| #[trigger]
                    old(world).query_spec(ComponentId::ProjectileTrail).contains(e) <==> old(
                        world,
                    ).cmap().contains_key((e.0, ComponentId::ProjectileTrail)),
                forall|a: int, b: int| 0 <= a < b < ents@.len() ==> ents@[a] != ents@[b],
                world.live() == old(world).live(),
                world.walls_view() == old(world).walls_view(),
                world.next_id() == old(world).next_id(),
                world.cmap().dom() == old(world).cmap().dom(),
                forall|key: (u64, ComponentId)| #[trigger]
                    old(world).cmap().contains_key(key) && key.1 != ComponentId::ProjectileTrail
                        ==> world.cmap()[key] == old(world).cmap()[key],
                forall|key: (u64, ComponentId)| #[trigger]
                    old(world).cmap().contains_key(key) && key.1 == ComponentId::ProjectileTrail
                        ==> world.cmap()[key] == if exists|t: int|
                        0 <= t < k && (#[trigger] ents@[t]).0 == key.0 {
                        match old(world).cmap()[key] {
                            Component::ProjectileTrail(tr) => Component::ProjectileTrail(
                                trail_step(tr, dt as int),
                            ),
                            c => c,
                        }
                    } else {
                        old(world).cmap()[key]
                    },
                forall|a: int|
                    0 <= a < dead@.len() ==> old(world).cmap().contains_key(
                        ((#[trigger] dead@[a]).0, ComponentId::ProjectileTrail),
                    ) && (match old(world).cmap()[(dead@[a].0, ComponentId::ProjectileTrail)] {
                        Component::ProjectileTrail(tr) => trail_step(tr, dt as int).lifetime
                            <= 0,
                        _ => false,
                    }),
                forall|key: (u64, ComponentId)| #[trigger]
                    old(world).cmap().contains_key(key) && key.1 == ComponentId::ProjectileTrail
                        && (match old(world).cmap()[key] {
                        Component::ProjectileTrail(tr) => trail_step(tr, dt as int).lifetime
                            <= 0,
                        _ => false,
                    }) && (exists|t: int| 0 <= t < k && (#[trigger] ents@[t]).0 == key.0)
                        ==> exists|a: int| 0 <= a < dead@.len() && (#[trigger] dead@[a]).0
                        == key.0,
            decreases n - k,
        {
            let e = ents[k];
            proof {
                assert(ents@.contains(ents@[k as int]));
                if exists|t: int| 0 <= t < k && (#[trigger] ents@[t]).0 == e.0 {
                    let t = choose|t: int| 0 <= t < k && (#[trigger] ents@[t]).0 == e.0;
                    assert(ents@[t] == e);
                    assert(false);
                }
            }
            match world.get_component(e, ComponentId::ProjectileTrail) {
                Some(c) => {
                    match c.as_projectile_trail() {
                        Some(tr) => {
                            proof {
                                assert(crate::ecs::component::component_bounded(
                                    old(world).cmap()[(e.0, ComponentId::ProjectileTrail)],
                                ));
                            }
                            let mut tr = tr;
                            tr.lifetime = crate::num::sat_sub_timer(tr.lifetime, dt);
                            world.add_component(e, Component::ProjectileTrail(tr));
                            let ghost dead0 = dead@;
                            if !tr.is_alive() {
                                dead.push(e);
                                proof {
                                    assert(dead@[dead@.len() - 1] == e);
                                    assert(forall|a: int|
                                        0 <= a < dead0.len() ==> dead@[a] == dead0[a]);
                                }
                            }
                            proof {
                                assert forall|key2: (u64, ComponentId)| #[trigger]
                                    old(world).cmap().contains_key(key2) && key2.1
                                        == ComponentId::ProjectileTrail && (match old(
                                    world,
                                ).cmap()[key2] {
                                    Component::ProjectileTrail(t2) => trail_step(
                                        t2,
                                        dt as int,
                                    ).lifetime <= 0,
                                    _ => false,
                                }) && (exists|t: int|
                                    0 <= t < k + 1 && (#[trigger] ents@[t]).0 == key2.0) implies exists|
                                    a: int,
                                |
                                    0 <= a < dead@.len() && (#[trigger] dead@[a]).0 == key2.0 by {
                                    let t = choose|t: int|
                                        0 <= t < k + 1 && (#[trigger] ents@[t]).0 == key2.0;
                                    if t < k {
                                        assert(exists|t2: int|
                                            0 <= t2 < k && (#[trigger] ents@[t2]).0 == key2.0);
                                        let a = choose|a: int|
                                            0 <= a < dead0.len() && (#[trigger] dead0[a]).0
                                                == key2.0;
                                        assert(dead@[a].0 == key2.0);
                                    } else {
                                        assert(ents@[t] == e);
                                        assert(key2 == (e.0, ComponentId::ProjectileTrail));
                                        assert(dead@[dead@.len() - 1].0 == key2.0);
                                    }
                                }
                                assert(world.cmap().dom() =~= old(world).cmap().dom());
                                assert forall|key2: (u64, ComponentId)| #[trigger]
                                    old(world).cmap().contains_key(key2) && key2.1
                                        == ComponentId::ProjectileTrail implies world.cmap()[key2]
                                    == if exists|t: int|
                                    0 <= t < k + 1 && (#[trigger] ents@[t]).0 == key2.0 {
                                    match old(world).cmap()[key2] {
                                        Component::ProjectileTrail(t2) => Component::ProjectileTrail(
                                            trail_step(t2, dt as int),
                                        ),
                                        c2 => c2,
                                    }
                                } else {
                                    old(world).cmap()[key2]
                                } by {
                                    if key2.0 == e.0 {
                                        assert(ents@[k as int].0 == key2.0);
                                    } else {
                                        if exists|t: int|
                                            0 <= t < k + 1 && (#[trigger] ents@[t]).0 == key2.0 {
                                            let t = choose|t: int|
                                                0 <= t < k + 1 && (#[trigger] ents@[t]).0
                                                    == key2.0;
                                            assert(t < k);
                                            assert(exists|t2: int|
                                                0 <= t2 < k && (#[trigger] ents@[t2]).0
                                                    == key2.0);
                                        }
                                    }
                                }
                            }
                        },
                        None => {
                            proof {
                                crate::ecs::world::World::lemma_lookup_kind(
                                    *world,
                                    e,
                                    ComponentId::ProjectileTrail,
                                );
                                assert(false);
                            }
                        },
                    }
                },
                None => {
                    proof {
                        crate::ecs::world::World::lemma_query_entity_has_component(
                            *old(world),
                            ComponentId::ProjectileTrail,
                            k as int,
                        );
                        assert(false);
                    }
                },
            }
            k = k + 1;
        }
        proof {
            assert forall|key: (u64, ComponentId)| #[trigger]
                old(world).cmap().contains_key(key) && key.1 == ComponentId::ProjectileTrail
                implies world.cmap()[key] == (match old(world).cmap()[key] {
                Component::ProjectileTrail(tr) => Component::ProjectileTrail(
                    trail_step(tr, dt as int),
                ),
                c => c,
            }) by {
                let e2 = Entity(key.0);
                assert(old(world).query_spec(ComponentId::ProjectileTrail).contains(e2));
                let t = choose|t: int| 0 <= t < ents@.len() && ents@[t] == e2;
                assert(ents@[t].0 == key.0);
            }
        }
        let ghost mid = *world;
        let m = dead.len();
        let mut j: usize = 0;
        while j < m
            invariant
                world.wf(),
                m == dead@.len(),
                j <= m,
                world.walls_view() == mid.walls_view(),
                world.next_id() == mid.next_id(),
                forall|x: Entity| world.live().contains(x) ==> mid.live().contains(x),
                forall|key: (u64, ComponentId)| #[trigger]
                    world.cmap().contains_key(key) ==> mid.cmap().contains_key(key)
                        && world.cmap()[key] == mid.cmap()[key],
                forall|key: (u64, ComponentId)| #[trigger]
                    mid.cmap().contains_key(key) && !(exists|a: int|
                        0 <= a < j && (#[trigger] dead@[a]).0 == key.0) ==> world.cmap().contains_key(
                        key,
                    ),
                forall|key: (u64, ComponentId)| #[trigger]
                    world.cmap().contains_key(key) ==> !(exists|a: int|
                        0 <= a < j && (#[trigger] dead@[a]).0 == key.0),
            decreases m - j,
        {
            let e = dead[j];
            world.despawn(e);
            proof {
                assert forall|key: (u64, ComponentId)| #[trigger]
                    mid.cmap().contains_key(key) && !(exists|a: int|
                        0 <= a < j + 1 && (#[trigger] dead@[a]).0 == key.0) implies world.cmap().contains_key(
                    key,
                ) by {
                    assert(!(exists|a: int| 0 <= a < j && (#[trigger] dead@[a]).0 == key.0));
                    assert(dead@[j as int].0 != key.0);
                    assert(!keys_of_entity(e.0).contains(key));
                }
                assert forall|key: (u64, ComponentId)| #[trigger]
                    world.cmap().contains_key(key) implies !(exists|a: int|
                        0 <= a < j + 1 && (#[trigger] dead@[a]).0 == key.0) by {
                    if exists|a: int| 0 <= a < j + 1 && (#[trigger] dead@[a]).0 == key.0 {
                        let a = choose|a: int|
                            0 <= a < j + 1 && (#[trigger] dead@[a]).0 == key.0;
                        if a == j {
                            assert(keys_of_entity(e.0).contains(key));
                        }
                    }
                }
            }
            j = j + 1;
        }
        proof {
            assert forall|key: (u64, ComponentId)| #[trigger]
                world.cmap().contains_key(key) && key.1 == ComponentId::ProjectileTrail
                implies (match world.cmap()[key] {
                Component::ProjectileTrail(t) => t.lifetime > 0,
                _ => true,
            }) by {
                assert(mid.cmap().contains_key(key));
                let e = Entity(key.0);
                assert(old(world).cmap().contains_key(key));
                assert(old(world).query_spec(ComponentId::ProjectileTrail).contains(e));
                let t = choose|t: int| 0 <= t < ents@.len() && ents@[t] == e;
                assert(ents@[t].0 == key.0);
                crate::ecs::world::World::lemma_lookup_kind(
                    *old(world),
                    e,
                    ComponentId::ProjectileTrail,
                );
                match old(world).cmap()[key] {
                    Component::ProjectileTrail(tr) => {
                        if trail_step(tr, dt as int).lifetime <= 0 {
                            assert(exists|a: int|
                                0 <= a < dead@.len() && (#[trigger] dead@[a]).0 == key.0);
                            assert(false);
                        }
                    },
                    _ => {
                        assert(false);
                    },
                }
            }
            assert forall|key: (u64, ComponentId)| #[trigger]
                old(world).cmap().contains_key(key) && key.1 == ComponentId::ProjectileTrail && (
            match old(world).cmap()[key] {
                Component::ProjectileTrail(t) => trail_step(t, dt as int).lifetime > 0,
                _ => true,
            }) implies world.cmap().contains_key(key) by {
                crate::ecs::world::World::lemma_lookup_kind(
                    *old(world),
                    Entity(key.0),
                    ComponentId::ProjectileTrail,
                );
                if exists|a: int| 0 <= a < dead@.len() && (#[trigger] dead@[a]).0 == key.0 {
                    let a = choose|a: int|
                        0 <= a < dead@.len() && (#[trigger] dead@[a]).0 == key.0;
                    assert(old(world).cmap().contains_key(
                        (dead@[a].0, ComponentId::ProjectileTrail),
                    ));
                    assert(false);
                }
            }
        }
    }
}

impl System for ProjectileTrailSystem {
    fn run(&mut self, world: &mut World, dt: i64) {
        ProjectileTrailSystem::run(self, world, dt);
    }
}

/// One frame of lifetime decay for a bullet.
pub open spec fn bullet_step(b: Bullet, dt: int) -> Bullet {
    Bullet {
        lifetime: if b.lifetime - dt >= crate::num::TIMER_FLOOR {
            b.lifetime - dt
        } else {
            crate::num::TIMER_FLOOR as int
        } as i64,
        ..b
    }
}

/// The position a bullet flies to in one frame.
pub open spec fn flown(p: Position, v: Velocity, dt: int) -> Position {
    Position {
        x: (p.x + crate::num::scale_spec(v.x as int, dt, crate::num::MICROS_PER_SEC as int)) as i64,
        y: (p.y + crate::num::scale_spec(v.y as int, dt, crate::num::MICROS_PER_SEC as int)) as i64,
    }
}

/// How one frame treats the bullet with id `id`: an expired bullet is
/// despawned, and a bullet that survives the frame (with in-bounds
/// components) has flown ahead and aged by `dt`.
pub open spec fn bullet_outcome(w0: World, w1: World, id: u64, dt: int) -> bool {
    match (
        w0.lookup(Entity(id), ComponentId::Bullet),
        w0.lookup(Entity(id), ComponentId::Position),
        w0.lookup(Entity(id), ComponentId::Velocity),
    ) {
        (
            Some(Component::Bullet(b)),
            Some(Component::Position(p)),
            Some(Component::Velocity(v)),
        ) => {
            &&& (b.lifetime <= 0 ==> !w1.cmap().contains_key((id, ComponentId::Bullet)))
            &&& (b.lifetime > 0 && crate::components::bullet_bounded(b)
                && crate::components::pos_bounded(p) && crate::components::vel_bounded(v)
                && w1.cmap().contains_key((id, ComponentId::Bullet)) ==> {
                &&& w1.lookup(Entity(id), ComponentId::Bullet) == Some(
                    Component::Bullet(bullet_step(b, dt)),
                )
                &&& w1.lookup(Entity(id), ComponentId::Position) == Some(
                    Component::Position(flown(p, v, dt)),
                )
            })
        },
        _ => true,
    }
}

/// A wall the bullet pass accepts: its values are within the grid bounds
/// the runtime guard enforces.
pub open spec fn bullet_wall_ok(w: crate::ecs::world::Wall) -> bool {
    &&& -crate::pathfinding::WALL_LIMIT <= w.x <= crate::pathfinding::WALL_LIMIT
    &&& -crate::pathfinding::WALL_LIMIT <= w.y <= crate::pathfinding::WALL_LIMIT
    &&& -2 * crate::pathfinding::WALL_LIMIT <= w.width <= 2 * crate::pathfinding::WALL_LIMIT
    &&& -2 * crate::pathfinding::WALL_LIMIT <= w.height <= 2 * crate::pathfinding::WALL_LIMIT
}

/// Whether the two-unit bullet circle at `p` overlaps some accepted wall.
pub open spec fn bullet_wall_hit(walls: Seq<crate::ecs::world::Wall>, p: Position) -> bool {
    exists|i: int|
        0 <= i < walls.len() && bullet_wall_ok(#[trigger] walls[i]) && crate::collision::circle_rect_hit(
            p,
            2000,
            walls[i].x as int,
            walls[i].y as int,
            walls[i].width as int,
            walls[i].height as int,
        )
}

/// Whether the enemy with id `id` is a valid target the bullet at `p`
/// overlaps: live, fully kitted, with in-range geometry.
pub open spec fn bullet_enemy_hit(w: World, id: u64, p: Position) -> bool {
    match (
        w.lookup(Entity(id), ComponentId::Position),
        w.lookup(Entity(id), ComponentId::Radius),
        w.lookup(Entity(id), ComponentId::Health),
    ) {
        (
            Some(Component::Position(ep)),
            Some(Component::Radius(er)),
            Some(Component::Health(eh)),
        ) => {
            &&& -crate::num::COORD_LIMIT <= ep.x <= crate::num::COORD_LIMIT
            &&& -crate::num::COORD_LIMIT <= ep.y <= crate::num::COORD_LIMIT
            &&& 0 <= er.value <= crate::num::COORD_LIMIT
            &&& eh.current > 0
            &&& crate::collision::circles_overlap(p, 2000, ep, er.value as int)
        },
        _ => false,
    }
}

/// The first listed enemy, from position `k` on, that the bullet at `p`
/// hits.
pub open spec fn first_bullet_hit_from(w: World, s: Seq<Entity>, p: Position, k: int) -> Option<
    Entity,
>
    decreases s.len() - k when 0 <= k <= s.len()
{
    if k >= s.len() {
        None
    } else if bullet_enemy_hit(w, s[k].0, p) {
        Some(s[k])
    } else {
        first_bullet_hit_from(w, s, p, k + 1)
    }
}

/// No entity is both an enemy and a bullet; the frame-level survival law
/// is stated under this sanity condition.
pub open spec fn enemies_not_bullets(w: World) -> bool {
    forall|id: u64| #[trigger]
        w.cmap().contains_key((id, ComponentId::Enemy)) ==> !w.cmap().contains_key(
            (id, ComponentId::Bullet),
        )
}

/// The old-state conditions under which a bullet is owed survival of the
/// frame: alive, in bounds, and its flown position clear of walls and of
/// every enemy.
pub open spec fn bullet_survives_cond(w: World, id: u64, dt: int) -> bool {
    match (
        w.lookup(Entity(id), ComponentId::Bullet),
        w.lookup(Entity(id), ComponentId::Position),
        w.lookup(Entity(id), ComponentId::Velocity),
    ) {
        (
            Some(Component::Bullet(b)),
            Some(Component::Position(p)),
            Some(Component::Velocity(v)),
        ) => {
            let np = flown(p, v, dt);
            &&& b.lifetime > 0
            &&& crate::components::pos_bounded(p)
            &&& crate::components::vel_bounded(v)
            &&& crate::num::TIMER_FLOOR <= b.lifetime <= crate::components::TIMER_LIMIT
            &&& !bullet_wall_hit(w.walls_view(), np)
            &&& first_bullet_hit_from(w, w.query_spec(ComponentId::Enemy), np, 0) is None
        },
        _ => false,
    }
}

/// A bullet owed survival by the old state is owed it by its own turn's
/// state too: its components are the old ones, the walls are the old
/// ones, and since enemy geometry never changes and health never grows, a
/// clear flight path stays clear.
proof fn lemma_survivor_turn(w0: World, wt: World, id: u64, dt: int)
    requires
        enemies_not_bullets(w0),
        w0.cmap().contains_key((id, ComponentId::Bullet)),
        bullet_survives_cond(w0, id, dt),
        wt.walls_view() == w0.walls_view(),
        wt.query_spec(ComponentId::Enemy) == w0.query_spec(ComponentId::Enemy),
        wt.lookup(Entity(id), ComponentId::Bullet) == w0.lookup(Entity(id), ComponentId::Bullet),
        wt.lookup(Entity(id), ComponentId::Position) == w0.lookup(
            Entity(id),
            ComponentId::Position,
        ),
        wt.lookup(Entity(id), ComponentId::Velocity) == w0.lookup(
            Entity(id),
            ComponentId::Velocity,
        ),
        forall|key: (u64, ComponentId)| #[trigger]
            wt.cmap().contains_key(key) ==> w0.cmap().contains_key(key),
        forall|eid: u64| #[trigger]
            w0.cmap().contains_key((eid, ComponentId::Enemy)) ==> wt.lookup(
                Entity(eid),
                ComponentId::Position,
            ) == w0.lookup(Entity(eid), ComponentId::Position) && wt.lookup(
                Entity(eid),
                ComponentId::Radius,
            ) == w0.lookup(Entity(eid), ComponentId::Radius),
        forall|key: (u64, ComponentId)| #[trigger]
            wt.cmap().contains_key(key) && key.1 == ComponentId::Health ==> (match (
                w0.cmap()[key],
                wt.cmap()[key],
            ) {
                (Component::Health(h0), Component::Health(h1)) => h1.max == h0.max && h1.current
                    <= h0.current,
                _ => true,
            }),
        forall|e2: Entity| #[trigger]
            w0.query_spec(ComponentId::Enemy).contains(e2) <==> w0.cmap().contains_key(
                (e2.0, ComponentId::Enemy),
            ),
    ensures
        bullet_survives_cond(wt, id, dt),
{
    let b = (match w0.lookup(Entity(id), ComponentId::Bullet) {
        Some(Component::Bullet(b)) => b,
        _ => arbitrary(),
    });
    let p = (match w0.lookup(Entity(id), ComponentId::Position) {
        Some(Component::Position(p)) => p,
        _ => arbitrary(),
    });
    let v = (match w0.lookup(Entity(id), ComponentId::Velocity) {
        Some(Component::Velocity(v)) => v,
        _ => arbitrary(),
    });
    let np = flown(p, v, dt);
    let s = w0.query_spec(ComponentId::Enemy);
    lemma_first_hit_none(w0, s, np, 0);
    assert forall|t: int| 0 <= t < s.len() implies !bullet_enemy_hit(
        wt,
        (#[trigger] s[t]).0,
        np,
    ) by {
        assert(!bullet_enemy_hit(w0, s[t].0, np));
        assert(s.contains(s[t]));
        assert(w0.cmap().contains_key((s[t].0, ComponentId::Enemy)));
        assert(!w0.cmap().contains_key((s[t].0, ComponentId::Bullet)));
        assert(s[t].0 != id);
        if bullet_enemy_hit(wt, s[t].0, np) {
            assert(wt.cmap().contains_key((s[t].0, ComponentId::Health)));
            assert(w0.cmap().contains_key((s[t].0, ComponentId::Health)));
            assert(wt.lookup(Entity(s[t].0), ComponentId::Position) == w0.lookup(
                Entity(s[t].0),
                ComponentId::Position,
            ));
            assert(wt.lookup(Entity(s[t].0), ComponentId::Radius) == w0.lookup(
                Entity(s[t].0),
                ComponentId::Radius,
            ));
            crate::ecs::world::World::lemma_lookup_kind(
                w0,
                Entity(s[t].0),
                ComponentId::Health,
            );
            crate::ecs::world::World::lemma_lookup_kind(
                wt,
                Entity(s[t].0),
                ComponentId::Health,
            );
            assert(false);
        }
    }
    lemma_first_hit_none(wt, wt.query_spec(ComponentId::Enemy), np, 0);
}

/// A found target is genuinely hit.
proof fn lemma_first_hit_some(w: World, s: Seq<Entity>, p: Position, k: int)
    requires
        0 <= k <= s.len(),
    ensures
        match first_bullet_hit_from(w, s, p, k) {
            Some(x) => bullet_enemy_hit(w, x.0, p),
            None => true,
        },
    decreases s.len() - k,
{
    if k < s.len() {
        lemma_first_hit_some(w, s, p, k + 1);
    }
}

/// The scan finds no target exactly when no listed enemy is hit.
proof fn lemma_first_hit_none(w: World, s: Seq<Entity>, p: Position, k: int)
    requires
        0 <= k <= s.len(),
    ensures
        (first_bullet_hit_from(w, s, p, k) is None) <==> forall|t: int|
            k <= t < s.len() ==> !bullet_enemy_hit(w, (#[trigger] s[t]).0, p),
    decreases s.len() - k,
{
    if k < s.len() {
        lemma_first_hit_none(w, s, p, k + 1);
    }
}

/// System that updates bullets: movement, wall collision, enemy damage.
pub struct BulletSystem;

impl BulletSystem {
    /// Advances every bullet by one frame: a bullet that has expired, hits
    /// a wall, or hits a live enemy (damaging it by the bullet's damage) is
    /// despawned; a surviving bullet flies ahead by its velocity and ages
    /// by `dt`. No entity or component is created, and components of kinds
    /// other than positions, bullets and health values are untouched
    /// wherever they survive.
    pub fn run(&mut self, world: &mut World, dt: i64)
        requires
            old(world).wf(),
            old(world).bounded(),
            0 <= dt <= MAX_FRAME_DT,
        ensures
            final (world).wf(),
            final (world).walls_view() == old(world).walls_view(),
            final (world).next_id() == old(world).next_id(),
            forall|x: Entity|
                final (world).live().contains(x) ==> old(world).live().contains(x),
            forall|key: (u64, ComponentId)| #[trigger]
                final (world).cmap().contains_key(key) ==> old(world).cmap().contains_key(key),
            forall|key: (u64, ComponentId)| #[trigger]
                final (world).cmap().contains_key(key) && key.1 != ComponentId::Position
                    && key.1 != ComponentId::Bullet && key.1 != ComponentId::Health ==> final (world).cmap()[key]
                    == old(world).cmap()[key],
            forall|id: u64|
                old(world).cmap().contains_key((id, ComponentId::Bullet))
                    ==> #[trigger] bullet_outcome(*old(world), *final (world), id, dt as int),
            enemies_not_bullets(*old(world)) ==> forall|id: u64|
                old(world).cmap().contains_key((id, ComponentId::Bullet))
                    && #[trigger] bullet_survives_cond(*old(world), id, dt as int) ==> (match (
                old(world).lookup(Entity(id), ComponentId::Bullet),
                old(world).lookup(Entity(id), ComponentId::Position),
                old(world).lookup(Entity(id), ComponentId::Velocity),
            ) {
                (
                    Some(Component::Bullet(b)),
                    Some(Component::Position(p)),
                    Some(Component::Velocity(v)),
                ) => final (world).lookup(Entity(id), ComponentId::Bullet) == Some(
                    Component::Bullet(bullet_step(b, dt as int)),
                ) && final (world).lookup(Entity(id), ComponentId::Position) == Some(
                    Component::Position(flown(p, v, dt as int)),
                ),
                _ => true,
            }),
    {
        let bullets = world.query(ComponentId::Bullet);
        let n = bullets.len();
        proof {
            crate::ecs::world::lemma_query_exact(*world, ComponentId::Bullet);
        }
        let mut k: usize = 0;
        while k < n
            invariant
                world.wf(),
                old(world).wf(),
                0 <= dt <= MAX_FRAME_DT,
                n == bullets@.len(),
                k <= n,
                bullets@ == old(world).query_spec(ComponentId::Bullet),
                forall|e2: Entity| #[trigger]
                    old(world).query_spec(ComponentId::Bullet).contains(e2) <==> old(
                        world,
                    ).cmap().contains_key((e2.0, ComponentId::Bullet)),
                forall|a: int, b: int| 0 <= a < b < bullets@.len() ==> bullets@[a] != bullets@[b],
                world.walls_view() == old(world).walls_view(),
                world.next_id() == old(world).next_id(),
                forall|x: Entity| world.live().contains(x) ==> old(world).live().contains(x),
                forall|key: (u64, ComponentId)| #[trigger]
                    world.cmap().contains_key(key) ==> old(world).cmap().contains_key(key),
                forall|key: (u64, ComponentId)| #[trigger]
                    world.cmap().contains_key(key) && key.1 != ComponentId::Position && key.1
                        != ComponentId::Bullet && key.1 != ComponentId::Health
                        ==> world.cmap()[key] == old(world).cmap()[key],
                forall|key: (u64, ComponentId)| #[trigger]
                    old(world).cmap().contains_key(key) && key.1 != ComponentId::Health && !(
                    exists|t: int|
                        0 <= t < k && (#[trigger] bullets@[t]).0 == key.0) ==> world.cmap().contains_key(
                        key,
                    ) && world.cmap()[key] == old(world).cmap()[key],
                forall|id: u64|
                    (exists|t: int| 0 <= t < k && (#[trigger] bullets@[t]).0 == id)
                        ==> #[trigger] bullet_outcome(*old(world), *world, id, dt as int),
                enemies_not_bullets(*old(world)) ==> world.query_spec(ComponentId::Enemy)
                    == old(world).query_spec(ComponentId::Enemy),
                forall|key: (u64, ComponentId)| #[trigger]
                    world.cmap().contains_key(key) && key.1 == ComponentId::Health ==> (match (
                    old(world).cmap()[key],
                    world.cmap()[key],
                ) {
                    (Component::Health(h0), Component::Health(h1)) => h1.max == h0.max
                        && h1.current <= h0.current,
                    _ => true,
                }),
                enemies_not_bullets(*old(world)) ==> forall|id: u64|
                    old(world).cmap().contains_key((id, ComponentId::Bullet))
                        && #[trigger] bullet_survives_cond(*old(world), id, dt as int) && (
                    exists|t: int|
                        0 <= t < k && (#[trigger] bullets@[t]).0 == id) ==> (match (
                    old(world).lookup(Entity(id), ComponentId::Bullet),
                    old(world).lookup(Entity(id), ComponentId::Position),
                    old(world).lookup(Entity(id), ComponentId::Velocity),
                ) {
                    (
                        Some(Component::Bullet(b)),
                        Some(Component::Position(p)),
                        Some(Component::Velocity(v)),
                    ) => world.lookup(Entity(id), ComponentId::Bullet) == Some(
                        Component::Bullet(bullet_step(b, dt as int)),
                    ) && world.lookup(Entity(id), ComponentId::Position) == Some(
                        Component::Position(flown(p, v, dt as int)),
                    ),
                    _ => true,
                }),
            decreases n - k,
        {
            let e = bullets[k];
            proof {
                assert(bullets@.contains(bullets@[k as int]));
                if exists|t: int| 0 <= t < k && (#[trigger] bullets@[t]).0 == e.0 {
                    let t = choose|t: int| 0 <= t < k && (#[trigger] bullets@[t]).0 == e.0;
                    assert(bullets@[t] == e);
                    assert(false);
                }
            }
            let ghost turn_start = *world;
            Self::step_bullet(world, e, dt);
            proof {
                assert(bullet_outcome(*old(world), *world, e.0, dt as int));
                assert forall|id: u64|
                    (exists|t: int| 0 <= t < k + 1 && (#[trigger] bullets@[t]).0 == id)
                        implies #[trigger] bullet_outcome(*old(world), *world, id, dt as int) by {
                    let t = choose|t: int| 0 <= t < k + 1 && (#[trigger] bullets@[t]).0 == id;
                    if t < k {
                        assert(exists|t2: int| 0 <= t2 < k && (#[trigger] bullets@[t2]).0 == id);
                        assert(bullet_outcome(*old(world), turn_start, id, dt as int));
                        assert(bullets@[t] != e);
                    } else {
                        assert(bullets@[t] == e);
                    }
                }
                assert forall|key: (u64, ComponentId)| #[trigger]
                    old(world).cmap().contains_key(key) && key.1 != ComponentId::Health && !(
                    exists|t: int|
                        0 <= t < k + 1 && (#[trigger] bullets@[t]).0 == key.0) implies world.cmap().contains_key(
                    key,
                ) && world.cmap()[key] == old(world).cmap()[key] by {
                    assert(!(exists|t: int| 0 <= t < k && (#[trigger] bullets@[t]).0 == key.0));
                    assert(bullets@[k as int].0 != key.0);
                }
                // Health never grows: chain the turn's monotone step onto
                // the prefix.
                assert forall|key: (u64, ComponentId)| #[trigger]
                    world.cmap().contains_key(key) && key.1 == ComponentId::Health implies (
                match (old(world).cmap()[key], world.cmap()[key]) {
                    (Component::Health(h0), Component::Health(h1)) => h1.max == h0.max
                        && h1.current <= h0.current,
                    _ => true,
                }) by {
                    assert(turn_start.cmap().contains_key(key));
                    assert(old(world).cmap().contains_key(key));
                    crate::ecs::world::World::lemma_lookup_kind(
                        *old(world),
                        Entity(key.0),
                        ComponentId::Health,
                    );
                    crate::ecs::world::World::lemma_lookup_kind(
                        turn_start,
                        Entity(key.0),
                        ComponentId::Health,
                    );
                }
                if enemies_not_bullets(*old(world)) {
                    // The expanded bullet is no enemy, so the enemy list is
                    // untouched.
                    assert(old(world).cmap().contains_key((e.0, ComponentId::Bullet))) by {
                        assert(old(world).query_spec(ComponentId::Bullet).contains(
                            bullets@[k as int],
                        ));
                    }
                    assert(!turn_start.cmap().contains_key((e.0, ComponentId::Enemy)));
                    assert(world.query_spec(ComponentId::Enemy) == old(world).query_spec(
                        ComponentId::Enemy,
                    ));
                    // A bullet owed survival meets the survivor branch this
                    // turn: its own components are untouched, the walls are
                    // unchanged, and no enemy has moved into its way.
                    assert forall|id: u64|
                        old(world).cmap().contains_key((id, ComponentId::Bullet))
                            && #[trigger] bullet_survives_cond(*old(world), id, dt as int) && (
                        exists|t: int|
                            0 <= t < k + 1 && (#[trigger] bullets@[t]).0 == id) implies (match (
                        old(world).lookup(Entity(id), ComponentId::Bullet),
                        old(world).lookup(Entity(id), ComponentId::Position),
                        old(world).lookup(Entity(id), ComponentId::Velocity),
                    ) {
                        (
                            Some(Component::Bullet(b)),
                            Some(Component::Position(p)),
                            Some(Component::Velocity(v)),
                        ) => world.lookup(Entity(id), ComponentId::Bullet) == Some(
                            Component::Bullet(bullet_step(b, dt as int)),
                        ) && world.lookup(Entity(id), ComponentId::Position) == Some(
                            Component::Position(flown(p, v, dt as int)),
                        ),
                        _ => true,
                    }) by {
                        let t = choose|t: int|
                            0 <= t < k + 1 && (#[trigger] bullets@[t]).0 == id;
                        if t < k {
                            assert(exists|t2: int|
                                0 <= t2 < k && (#[trigger] bullets@[t2]).0 == id);
                            assert(bullets@[t] != e);
                            assert(world.lookup(Entity(id), ComponentId::Bullet)
                                == turn_start.lookup(Entity(id), ComponentId::Bullet));
                            assert(world.lookup(Entity(id), ComponentId::Position)
                                == turn_start.lookup(Entity(id), ComponentId::Position));
                        } else {
                            assert(bullets@[t] == e);
                            assert forall|eid: u64| #[trigger]
                                old(world).cmap().contains_key((eid, ComponentId::Enemy))
                                implies turn_start.lookup(Entity(eid), ComponentId::Position)
                                == old(world).lookup(Entity(eid), ComponentId::Position)
                                && turn_start.lookup(Entity(eid), ComponentId::Radius) == old(
                                world,
                            ).lookup(Entity(eid), ComponentId::Radius) by {
                                if exists|t2: int|
                                    0 <= t2 < k && (#[trigger] bullets@[t2]).0 == eid {
                                    let t2 = choose|t2: int|
                                        0 <= t2 < k && (#[trigger] bullets@[t2]).0 == eid;
                                    assert(bullets@.contains(bullets@[t2]));
                                    assert(old(world).cmap().contains_key(
                                        (eid, ComponentId::Bullet),
                                    ));
                                    assert(false);
                                }
                            }
                            crate::ecs::world::lemma_query_exact(
                                *old(world),
                                ComponentId::Enemy,
                            );
                            lemma_survivor_turn(*old(world), turn_start, e.0, dt as int);
                        }
                    }
                }
            }
            k = k + 1;
        }
        proof {
            assert forall|id: u64|
                old(world).cmap().contains_key((id, ComponentId::Bullet))
                    implies #[trigger] bullet_outcome(*old(world), *world, id, dt as int) by {
                let e2 = Entity(id);
                assert(old(world).query_spec(ComponentId::Bullet).contains(e2));
                let t = choose|t: int| 0 <= t < bullets@.len() && bullets@[t] == e2;
                assert(bullets@[t].0 == id);
            }
            if enemies_not_bullets(*old(world)) {
                assert forall|id: u64|
                    old(world).cmap().contains_key((id, ComponentId::Bullet))
                        && #[trigger] bullet_survives_cond(*old(world), id, dt as int) implies (
                match (
                    old(world).lookup(Entity(id), ComponentId::Bullet),
                    old(world).lookup(Entity(id), ComponentId::Position),
                    old(world).lookup(Entity(id), ComponentId::Velocity),
                ) {
                    (
                        Some(Component::Bullet(b)),
                        Some(Component::Position(p)),
                        Some(Component::Velocity(v)),
                    ) => world.lookup(Entity(id), ComponentId::Bullet) == Some(
                        Component::Bullet(bullet_step(b, dt as int)),
                    ) && world.lookup(Entity(id), ComponentId::Position) == Some(
                        Component::Position(flown(p, v, dt as int)),
                    ),
                    _ => true,
                }) by {
                    let e2 = Entity(id);
                    assert(old(world).query_spec(ComponentId::Bullet).contains(e2));
                    let t = choose|t: int| 0 <= t < bullets@.len() && bullets@[t] == e2;
                    assert(bullets@[t].0 == id);
                }
            }
        }
    }

    /// Processes one bullet entity for one frame: expiry, movement, wall
    /// and enemy collision. A bullet whose components lie outside the
    /// world's numeric bounds is left untouched for the frame.
    fn step_bullet(world: &mut World, e: Entity, dt: i64)
        requires
            old(world).wf(),
            0 <= dt <= MAX_FRAME_DT,
        ensures
            final (world).wf(),
            final (world).walls_view() == old(world).walls_view(),
            final (world).next_id() == old(world).next_id(),
            forall|x: Entity|
                final (world).live().contains(x) ==> old(world).live().contains(x),
            forall|key: (u64, ComponentId)| #[trigger]
                final (world).cmap().contains_key(key) ==> old(world).cmap().contains_key(key),
            forall|key: (u64, ComponentId)| #[trigger]
                final (world).cmap().contains_key(key) && key.1 != ComponentId::Position
                    && key.1 != ComponentId::Bullet && key.1 != ComponentId::Health ==> final (world).cmap()[key]
                    == old(world).cmap()[key],
            forall|key: (u64, ComponentId)| #[trigger]
                old(world).cmap().contains_key(key) && key.0 != e.0 && key.1
                    != ComponentId::Health ==> final (world).cmap().contains_key(key) && final (world).cmap()[key]
                    == old(world).cmap()[key],
            bullet_outcome(*old(world), *final (world), e.0, dt as int),
            !old(world).cmap().contains_key((e.0, ComponentId::Enemy)) ==> final (world).query_spec(
                ComponentId::Enemy,
            ) == old(world).query_spec(ComponentId::Enemy),
            forall|key: (u64, ComponentId)| #[trigger]
                final (world).cmap().contains_key(key) && key.1 == ComponentId::Health ==> (
                match (old(world).cmap()[key], final (world).cmap()[key]) {
                    (Component::Health(h0), Component::Health(h1)) => h1.max == h0.max
                        && h1.current <= h0.current,
                    _ => true,
                }),
            (match (
                old(world).lookup(e, ComponentId::Bullet),
                old(world).lookup(e, ComponentId::Position),
                old(world).lookup(e, ComponentId::Velocity),
            ) {
                (
                    Some(Component::Bullet(b)),
                    Some(Component::Position(p)),
                    Some(Component::Velocity(v)),
                ) => {
                    let np = flown(p, v, dt as int);
                    let in_bounds = crate::components::pos_bounded(p)
                        && crate::components::vel_bounded(v) && crate::num::TIMER_FLOOR
                        <= b.lifetime <= crate::components::TIMER_LIMIT;
                    let hit = first_bullet_hit_from(
                        *old(world),
                        old(world).query_spec(ComponentId::Enemy),
                        np,
                        0,
                    );
                    &&& (b.lifetime <= 0 ==> !final (world).cmap().contains_key(
                        (e.0, ComponentId::Bullet),
                    ))
                    &&& (b.lifetime > 0 && !in_bounds ==> *final (world) == *old(world))
                    &&& (b.lifetime > 0 && in_bounds && bullet_wall_hit(
                        old(world).walls_view(),
                        np,
                    ) ==> !final (world).cmap().contains_key((e.0, ComponentId::Bullet)))
                    &&& (b.lifetime > 0 && in_bounds && !bullet_wall_hit(
                        old(world).walls_view(),
                        np,
                    ) ==> (match hit {
                        Some(he) => {
                            &&& !final (world).cmap().contains_key((e.0, ComponentId::Bullet))
                            &&& (he.0 != e.0 ==> (match old(world).lookup(he, ComponentId::Health) {
                                Some(Component::Health(h)) => final (world).lookup(
                                    he,
                                    ComponentId::Health,
                                ) == Some(
                                    Component::Health(
                                        crate::components::Health {
                                            current: (if h.current - (if b.damage >= 0 {
                                                b.damage as int
                                            } else {
                                                0int
                                            }) >= 0 {
                                                h.current - (if b.damage >= 0 {
                                                    b.damage as int
                                                } else {
                                                    0int
                                                })
                                            } else {
                                                0int
                                            }) as i32,
                                            max: h.max,
                                        },
                                    ),
                                ),
                                _ => true,
                            }))
                            &&& (forall|key: (u64, ComponentId)| #[trigger]
                                old(world).cmap().contains_key(key) && key.1
                                    == ComponentId::Health && key.0 != he.0 && key.0 != e.0
                                    ==> final (world).cmap()[key] == old(world).cmap()[key])
                        },
                        None => {
                            &&& final (world).lookup(e, ComponentId::Bullet) == Some(
                                Component::Bullet(bullet_step(b, dt as int)),
                            )
                            &&& final (world).lookup(e, ComponentId::Position) == Some(
                                Component::Position(np),
                            )
                            &&& (forall|key: (u64, ComponentId)| #[trigger]
                                old(world).cmap().contains_key(key) && key.1
                                    == ComponentId::Health ==> final (world).cmap()[key] == old(
                                    world,
                                ).cmap()[key])
                        },
                    }))
                },
                _ => *final (world) == *old(world),
            }),
    {
        let b_c = world.get_component(e, ComponentId::Bullet);
        let p_c = world.get_component(e, ComponentId::Position);
        let v_c = world.get_component(e, ComponentId::Velocity);
        let (bullet, bullet_pos, bullet_vel) = match (b_c, p_c, v_c) {
            (
                Some(Component::Bullet(b)),
                Some(Component::Position(p)),
                Some(Component::Velocity(v)),
            ) => (b, p, v),
            _ => {
                proof {
                    if world.cmap().contains_key((e.0, ComponentId::Bullet)) {
                        crate::ecs::world::World::lemma_lookup_kind(*world, e, ComponentId::Bullet);
                    }
                    if world.cmap().contains_key((e.0, ComponentId::Position)) {
                        crate::ecs::world::World::lemma_lookup_kind(
                            *world,
                            e,
                            ComponentId::Position,
                        );
                    }
                    if world.cmap().contains_key((e.0, ComponentId::Velocity)) {
                        crate::ecs::world::World::lemma_lookup_kind(
                            *world,
                            e,
                            ComponentId::Velocity,
                        );
                    }
                }
                return ;
            },
        };
        if !bullet.is_alive() {
            world.despawn(e);
            return ;
        }
        // Values outside the world's numeric bounds are not integrated.
        if bullet_pos.x > crate::components::POS_LIMIT || bullet_pos.x
            < -crate::components::POS_LIMIT || bullet_pos.y > crate::components::POS_LIMIT
            || bullet_pos.y < -crate::components::POS_LIMIT {
            return ;
        }
        if bullet_vel.x > crate::components::VEL_LIMIT || bullet_vel.x
            < -crate::components::VEL_LIMIT || bullet_vel.y > crate::components::VEL_LIMIT
            || bullet_vel.y < -crate::components::VEL_LIMIT {
            return ;
        }
        if bullet.lifetime > crate::components::TIMER_LIMIT || bullet.lifetime
            < crate::num::TIMER_FLOOR {
            return ;
        }
        proof {
            lemma_flight_bound(bullet_vel.x as int, dt as int);
            lemma_flight_bound(bullet_vel.y as int, dt as int);
        }
        let sx = crate::num::scale64(bullet_vel.x, dt, crate::num::MICROS_PER_SEC);
        let sy = crate::num::scale64(bullet_vel.y, dt, crate::num::MICROS_PER_SEC);
        let new_pos = Position { x: bullet_pos.x + sx, y: bullet_pos.y + sy };

        // Wall collision: bullets are small, two world units across.
        let walls = world.walls().clone();
        proof {
            assert(walls@ =~= old(world).walls_view());
        }
        let wn = walls.len();
        let mut hit_wall = false;
        let mut wi: usize = 0;
        while wi < wn
            invariant
                wn == walls@.len(),
                wi <= wn,
                crate::num::abs_spec(new_pos.x as int) <= 200000000,
                crate::num::abs_spec(new_pos.y as int) <= 200000000,
                hit_wall ==> bullet_wall_hit(walls@, new_pos),
                !hit_wall ==> forall|j: int|
                    0 <= j < wi ==> !(bullet_wall_ok(#[trigger] walls@[j])
                        && crate::collision::circle_rect_hit(
                        new_pos,
                        2000,
                        walls@[j].x as int,
                        walls@[j].y as int,
                        walls@[j].width as int,
                        walls@[j].height as int,
                    )),
            decreases wn - wi,
        {
            let w = walls[wi];
            let wall_ok = w.x >= -crate::pathfinding::WALL_LIMIT && w.x
                <= crate::pathfinding::WALL_LIMIT && w.y >= -crate::pathfinding::WALL_LIMIT && w.y
                <= crate::pathfinding::WALL_LIMIT && w.width >= -2 * crate::pathfinding::WALL_LIMIT
                && w.width <= 2 * crate::pathfinding::WALL_LIMIT && w.height >= -2
                * crate::pathfinding::WALL_LIMIT && w.height <= 2 * crate::pathfinding::WALL_LIMIT;
            if wall_ok && crate::collision::circle_rect_collision(
                new_pos,
                2000,
                w.x,
                w.y,
                w.width,
                w.height,
            ) {
                hit_wall = true;
                wi = wn;
            } else {
                wi = wi + 1;
            }
        }
        proof {
            assert(hit_wall == bullet_wall_hit(old(world).walls_view(), new_pos));
        }
        if hit_wall {
            world.despawn(e);
            return ;
        }

        // Enemy collision: the first live enemy the bullet overlaps takes
        // its damage.
        let hit = find_bullet_hit(world, new_pos);
        proof {
            lemma_first_hit_some(
                *world,
                world.query_spec(ComponentId::Enemy),
                new_pos,
                0,
            );
        }
        if let Some(enemy) = hit {
            match world.get_component(enemy, ComponentId::Health) {
                Some(Component::Health(h)) => {
                    let mut h = h;
                    let dmg = if bullet.damage >= 0 {
                        bullet.damage
                    } else {
                        0
                    };
                    h.take_damage(dmg);
                    world.add_component(enemy, Component::Health(h));
                    proof {
                        assert(world.cmap().dom() =~= old(world).cmap().dom());
                    }
                },
                _ => {
                },
            }
            world.despawn(e);
            return ;
        }

        // Keep flying: update position and age the bullet.
        world.add_component(e, Component::Position(new_pos));
        let mut b = bullet;
        b.lifetime = crate::num::sat_sub_timer(b.lifetime, dt);
        world.add_component(e, Component::Bullet(b));
        proof {
            assert(world.cmap().dom() =~= old(world).cmap().dom());
        }
    }
}

impl System for BulletSystem {
    fn run(&mut self, world: &mut World, dt: i64) {
        BulletSystem::run(self, world, dt);
    }
}

/// The first live enemy, in query order, whose circle overlaps the bullet
/// at `pos`. Enemies with out-of-range geometry are skipped.
fn find_bullet_hit(world: &World, pos: Position) -> (r: Option<Entity>)
    requires
        world.wf(),
        crate::num::abs_spec(pos.x as int) <= 200000000,
        crate::num::abs_spec(pos.y as int) <= 200000000,
    ensures
        r == first_bullet_hit_from(*world, world.query_spec(ComponentId::Enemy), pos, 0),
        r matches Some(enemy) ==> world.cmap().contains_key((enemy.0, ComponentId::Enemy))
            && world.cmap().contains_key((enemy.0, ComponentId::Health)),
{
    let enemies = world.query(ComponentId::Enemy);
    let en = enemies.len();
    proof {
        crate::ecs::world::lemma_query_exact(*world, ComponentId::Enemy);
    }
    let mut ei: usize = 0;
    while ei < en
        invariant
            world.wf(),
            en == enemies@.len(),
            ei <= en,
            crate::num::abs_spec(pos.x as int) <= 200000000,
            crate::num::abs_spec(pos.y as int) <= 200000000,
            forall|e2: Entity| #[trigger]
                world.query_spec(ComponentId::Enemy).contains(e2) <==> world.cmap().contains_key(
                    (e2.0, ComponentId::Enemy),
                ),
            enemies@ == world.query_spec(ComponentId::Enemy),
            first_bullet_hit_from(*world, enemies@, pos, 0) == first_bullet_hit_from(
                *world,
                enemies@,
                pos,
                ei as int,
            ),
        decreases en - ei,
    {
        let enemy = enemies[ei];
        proof {
            assert(enemies@.contains(enemies@[ei as int]));
        }
        let ep_c = world.get_component(enemy, ComponentId::Position);
        let er_c = world.get_component(enemy, ComponentId::Radius);
        let eh_c = world.get_component(enemy, ComponentId::Health);
        match (ep_c, er_c, eh_c) {
            (
                Some(Component::Position(ep)),
                Some(Component::Radius(er)),
                Some(Component::Health(eh)),
            ) => {
                let in_range = ep.x >= -crate::num::COORD_LIMIT && ep.x <= crate::num::COORD_LIMIT
                    && ep.y >= -crate::num::COORD_LIMIT && ep.y <= crate::num::COORD_LIMIT
                    && er.value >= 0 && er.value <= crate::num::COORD_LIMIT;
                if in_range && eh.is_alive() && circle_circle_collision(pos, 2000, ep, er.value) {
                    proof {
                        assert(bullet_enemy_hit(*world, enemy.0, pos));
                    }
                    return Some(enemy);
                }
                proof {
                    assert(!bullet_enemy_hit(*world, enemy.0, pos));
                }
            },
            _ => {
                proof {
                    if world.cmap().contains_key((enemy.0, ComponentId::Position)) {
                        crate::ecs::world::World::lemma_lookup_kind(
                            *world,
                            enemy,
                            ComponentId::Position,
                        );
                    }
                    if world.cmap().contains_key((enemy.0, ComponentId::Radius)) {
                        crate::ecs::world::World::lemma_lookup_kind(
                            *world,
                            enemy,
                            ComponentId::Radius,
                        );
                    }
                    if world.cmap().contains_key((enemy.0, ComponentId::Health)) {
                        crate::ecs::world::World::lemma_lookup_kind(
                            *world,
                            enemy,
                            ComponentId::Health,
                        );
                    }
                    assert(!bullet_enemy_hit(*world, enemy.0, pos));
                }
            },
        }
        ei = ei + 1;
    }
    None
}

/// A bounded bullet velocity over a bounded frame keeps the flown position
/// a valid geometry input.
proof fn lemma_flight_bound(a: int, dt: int)
    requires
        crate::num::abs_spec(a) <= crate::components::VEL_LIMIT,
        0 <= dt <= MAX_FRAME_DT,
    ensures
        0 <= crate::num::abs_spec(a) * dt / (crate::num::MICROS_PER_SEC as int) <= 100000000,
{
    let m = crate::num::abs_spec(a);
    assert(m * dt <= 100000000000000) by (nonlinear_arith)
        requires
            0 <= m <= 1000000,
            0 <= dt <= 100000000,
    ;
    assert(m * dt >= 0) by (nonlinear_arith)
        requires
            m >= 0,
            dt >= 0,
    ;
    crate::num::lemma_div_le_self(m * dt, 1000000);
    vstd::arithmetic::div_mod::lemma_div_is_ordered(m * dt, 100000000000000, 1000000);
    vstd::arithmetic::div_mod::lemma_fundamental_div_mod_converse(
        100000000000000,
        1000000,
        100000000,
        0,
    );
}

} // verus!
