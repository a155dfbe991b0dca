//! System that integrates velocity into position and resolves wall
//! collisions by pushing the mover out through the nearest wall edge.

use crate::collision::{circle_rect_hit, walls_in_geom_range};
use crate::components::{pos_bounded, vel_bounded, Position, Velocity};
use crate::ecs::component::{Component, ComponentId};
use crate::ecs::entity::Entity;
use crate::ecs::system::{System, MAX_FRAME_DT};
use crate::ecs::world::{Wall, World};
use crate::num::{scale_spec, MICROS_PER_SEC};
use vstd::prelude::*;

verus! {

/// Resolution of one wall: a circle overlapping the wall is pushed out
/// through the closest of the four edges, provided the push distance is
/// positive.
pub open spec fn resolve_one(wall: Wall, p: Position, rad: int) -> Position {
    if circle_rect_hit(p, rad, wall.x as int, wall.y as int, wall.width as int, wall.height as int) {
        let wall_right = wall.x + wall.width;
        let wall_bottom = wall.y + wall.height;
        let dist_to_left = p.x - (wall.x - rad);
        let dist_to_right = (wall_right + rad) - p.x;
        let dist_to_top = p.y - (wall.y - rad);
        let dist_to_bottom = (wall_bottom + rad) - p.y;
        let m1 = if dist_to_right < dist_to_left {
            dist_to_right
        } else {
            dist_to_left
        };
        let m2 = if dist_to_top < m1 {
            dist_to_top
        } else {
            m1
        };
        let min_dist = if dist_to_bottom < m2 {
            dist_to_bottom
        } else {
            m2
        };
        if min_dist == dist_to_left && dist_to_left > 0 {
            Position { x: (wall.x - rad) as i64, ..p }
        } else if min_dist == dist_to_right && dist_to_right > 0 {
            Position { x: (wall_right + rad) as i64, ..p }
        } else if min_dist == dist_to_top && dist_to_top > 0 {
            Position { y: (wall.y - rad) as i64, ..p }
        } else if min_dist == dist_to_bottom && dist_to_bottom > 0 {
            Position { y: (wall_bottom + rad) as i64, ..p }
        } else {
            p
        }
    } else {
        p
    }
}

/// Resolution against the walls from index `i` on, in list order.
pub open spec fn resolve_from(walls: Seq<Wall>, i: int, p: Position, rad: int) -> Position
    decreases walls.len() - i when 0 <= i <= walls.len()
{
    if i >= walls.len() {
        p
    } else {
        resolve_from(walls, i + 1, resolve_one(walls[i], p, rad), rad)
    }
}

/// A coordinate clamped into the world's stored-position bound, so frames
/// compose: a mover cannot leave the representable region.
pub open spec fn clamp_coord(v: int) -> int {
    if v < -(crate::components::POS_LIMIT as int) {
        -(crate::components::POS_LIMIT as int)
    } else if v > crate::components::POS_LIMIT as int {
        crate::components::POS_LIMIT as int
    } else {
        v
    }
}

/// One movement step: integrate velocity over `dt` microseconds, resolve
/// collisions against every wall in order, then clamp into the stored
/// bound.
pub open spec fn move_step(p: Position, v: Velocity, rad: int, walls: Seq<Wall>, dt: int) -> Position {
    let target = Position {
        x: (p.x + scale_spec(v.x as int, dt, MICROS_PER_SEC as int)) as i64,
        y: (p.y + scale_spec(v.y as int, dt, MICROS_PER_SEC as int)) as i64,
    };
    let resolved = resolve_from(walls, 0, target, rad);
    Position { x: clamp_coord(resolved.x as int) as i64, y: clamp_coord(resolved.y as int) as i64 }
}

/// System that applies velocity to position.
pub struct MovementSystem;

impl MovementSystem {
    /// Every entity holding both a position and a velocity moves by one
    /// `move_step`; its collision radius is its `Radius` component, or
    /// zero without one. Nothing else changes.
    pub fn run(&mut self, world: &mut World, dt: i64)
        requires
            old(world).wf(),
            old(world).bounded(),
            0 <= dt <= MAX_FRAME_DT,
        ensures
            final (world).wf(),
            final (world).bounded(),
            final (world).live() == old(world).live(),
            final (world).walls_view() == old(world).walls_view(),
            final (world).next_id() == old(world).next_id(),
            final (world).cmap().dom() == old(world).cmap().dom(),
            forall|key: (u64, ComponentId)| #[trigger]
                old(world).cmap().contains_key(key) && key.1 != ComponentId::Position
                    ==> final (world).cmap()[key] == old(world).cmap()[key],
            forall|key: (u64, ComponentId)| #[trigger]
                old(world).cmap().contains_key(key) && key.1 == ComponentId::Position
                    ==> final (world).cmap()[key] == (if old(world).cmap().contains_key(
                    (key.0, ComponentId::Velocity),
                ) {
                    match (
                        old(world).cmap()[key],
                        old(world).cmap()[(key.0, ComponentId::Velocity)],
                    ) {
                        (Component::Position(p), Component::Velocity(v)) => Component::Position(
                            move_step(
                                p,
                                v,
                                (match old(world).lookup(
                                    Entity(key.0),
                                    ComponentId::Radius,
                                ) {
                                    Some(Component::Radius(rr)) => rr.value as int,
                                    _ => 0,
                                }),
                                old(world).walls_view(),
                                dt as int,
                            ),
                        ),
                        (c, _) => c,
                    }
                } else {
                    old(world).cmap()[key]
                }),
    {
        let ents = world.query_with(ComponentId::Position, ComponentId::Velocity);
        let n = ents.len();
        proof {
            crate::ecs::world::lemma_query_with_exact(
                *world,
                ComponentId::Position,
                ComponentId::Velocity,
            );
        }
        let walls = world.walls().clone();
        proof {
            assert(walls@ =~= old(world).walls_view());
        }
        let mut k: usize = 0;
        while k < n
            invariant
                world.wf(),
                old(world).bounded(),
                0 <= dt <= MAX_FRAME_DT,
                n == ents@.len(),
                k <= n,
                walls@ == old(world).walls_view(),
                forall|e: Entity| #[trigger]
                    ents@.contains(e) <==> (old(world).cmap().contains_key(
                        (e.0, ComponentId::Position),
                    ) && old(world).cmap().contains_key((e.0, ComponentId::Velocity))),
                forall|a: int, b: int| 0 <= a < b < ents@.len() ==> ents@[a] != ents@[b],
                world.live() == old(world).live(),
                world.walls_view() == old(world).walls_view(),
                world.next_id() == old(world).next_id(),
                world.cmap().dom() == old(world).cmap().dom(),
                forall|key: (u64, ComponentId)| #[trigger]
                    old(world).cmap().contains_key(key) && key.1 != ComponentId::Position
                        ==> world.cmap()[key] == old(world).cmap()[key],
                forall|key: (u64, ComponentId)| #[trigger]
                    old(world).cmap().contains_key(key) && key.1 == ComponentId::Position
                        ==> world.cmap()[key] == (if exists|t: int|
                        0 <= t < k && (#[trigger] ents@[t]).0 == key.0 {
                        match (
                            old(world).cmap()[key],
                            old(world).cmap()[(key.0, ComponentId::Velocity)],
                        ) {
                            (Component::Position(p), Component::Velocity(v)) => Component::Position(
                                move_step(
                                    p,
                                    v,
                                    (match old(world).lookup(
                                        Entity(key.0),
                                        ComponentId::Radius,
                                    ) {
                                        Some(Component::Radius(rr)) => rr.value as int,
                                        _ => 0,
                                    }),
                                    old(world).walls_view(),
                                    dt as int,
                                ),
                            ),
                            (c, _) => c,
                        }
                    } else {
                        old(world).cmap()[key]
                    }),
            decreases n - k,
        {
            let e = ents[k];
            proof {
                assert(ents@.contains(ents@[k as int]));
                crate::ecs::world::World::lemma_lookup_kind(*world, e, ComponentId::Position);
                crate::ecs::world::World::lemma_lookup_kind(*world, e, ComponentId::Velocity);
                if exists|t: int| 0 <= t < k && (#[trigger] ents@[t]).0 == e.0 {
                    let t = choose|t: int| 0 <= t < k && (#[trigger] ents@[t]).0 == e.0;
                    assert(ents@[t] == e);
                    assert(false);
                }
            }
            let pos_c = world.get_component(e, ComponentId::Position);
            let vel_c = world.get_component(e, ComponentId::Velocity);
            let rad_c = world.get_component(e, ComponentId::Radius);
            let radius: i64 = match rad_c {
                Some(Component::Radius(rr)) => rr.value,
                _ => 0,
            };
            proof {
                if world.cmap().contains_key((e.0, ComponentId::Radius)) {
                    crate::ecs::world::World::lemma_lookup_kind(*world, e, ComponentId::Radius);
                    assert(crate::ecs::component::component_bounded(
                        old(world).cmap()[(e.0, ComponentId::Radius)],
                    ));
                }
                assert(crate::ecs::component::component_bounded(
                    old(world).cmap()[(e.0, ComponentId::Position)],
                ));
                assert(crate::ecs::component::component_bounded(
                    old(world).cmap()[(e.0, ComponentId::Velocity)],
                ));
            }
            match (pos_c, vel_c) {
                (Some(Component::Position(p)), Some(Component::Velocity(v))) => {
                    let moved = step_position(p, v, radius, &walls, dt);
                    world.add_component(e, Component::Position(moved));
                    proof {
                        assert(world.cmap().dom() =~= old(world).cmap().dom());
                        assert forall|key2: (u64, ComponentId)| #[trigger]
                            old(world).cmap().contains_key(key2) && key2.1
                                == ComponentId::Position implies world.cmap()[key2] == (
                        if exists|t: int| 0 <= t < k + 1 && (#[trigger] ents@[t]).0 == key2.0 {
                            match (
                                old(world).cmap()[key2],
                                old(world).cmap()[(key2.0, ComponentId::Velocity)],
                            ) {
                                (
                                    Component::Position(p2),
                                    Component::Velocity(v2),
                                ) => Component::Position(
                                    move_step(
                                        p2,
                                        v2,
                                        (match old(world).lookup(
                                            Entity(key2.0),
                                            ComponentId::Radius,
                                        ) {
                                            Some(Component::Radius(rr)) => rr.value as int,
                                            _ => 0,
                                        }),
                                        old(world).walls_view(),
                                        dt as int,
                                    ),
                                ),
                                (c2, _) => c2,
                            }
                        } else {
                            old(world).cmap()[key2]
                        }) by {
                            if key2.0 == e.0 {
                                assert(ents@[k as int].0 == key2.0);
                                assert(Entity(key2.0) == e);
                            } else {
                                if exists|t: int|
                                    0 <= t < k + 1 && (#[trigger] ents@[t]).0 == key2.0 {
                                    let t = choose|t: int|
                                        0 <= t < k + 1 && (#[trigger] ents@[t]).0 == key2.0;
                                    assert(t < k);
                                    assert(exists|t2: int|
                                        0 <= t2 < k && (#[trigger] ents@[t2]).0 == key2.0);
                                }
                            }
                        }
                    }
                },
                _ => {
                    proof {
                        assert(false);
                    }
                },
            }
            k = k + 1;
        }
        proof {
            assert forall|key: (u64, ComponentId)| #[trigger]
                old(world).cmap().contains_key(key) && key.1 == ComponentId::Position
                implies world.cmap()[key] == (if old(world).cmap().contains_key(
                (key.0, ComponentId::Velocity),
            ) {
                match (old(world).cmap()[key], old(world).cmap()[(key.0, ComponentId::Velocity)]) {
                    (Component::Position(p), Component::Velocity(v)) => Component::Position(
                        move_step(
                            p,
                            v,
                            (match old(world).lookup(Entity(key.0), ComponentId::Radius) {
                                Some(Component::Radius(rr)) => rr.value as int,
                                _ => 0,
                            }),
                            old(world).walls_view(),
                            dt as int,
                        ),
                    ),
                    (c, _) => c,
                }
            } else {
                old(world).cmap()[key]
            }) by {
                let e = Entity(key.0);
                if old(world).cmap().contains_key((key.0, ComponentId::Velocity)) {
                    assert(ents@.contains(e));
                    let t = choose|t: int| 0 <= t < ents@.len() && ents@[t] == e;
                    assert(ents@[t].0 == key.0);
                } else {
                    if exists|t: int| 0 <= t < n && (#[trigger] ents@[t]).0 == key.0 {
                        let t = choose|t: int| 0 <= t < n && (#[trigger] ents@[t]).0 == key.0;
                        assert(ents@.contains(ents@[t]));
                    }
                }
            }
        }
    }
}

impl System for MovementSystem {
    fn run(&mut self, world: &mut World, dt: i64) {
        MovementSystem::run(self, world, dt);
    }
}

/// Integrates one entity's position and resolves wall collisions.
fn step_position(p: Position, v: Velocity, radius: i64, walls: &Vec<Wall>, dt: i64) -> (r:
    Position)
    requires
        pos_bounded(p),
        vel_bounded(v),
        0 <= radius <= crate::components::POS_LIMIT,
        0 <= dt <= MAX_FRAME_DT,
        crate::pathfinding::walls_bounded(walls@),
    ensures
        r == move_step(p, v, radius as int, walls@, dt as int),
        pos_bounded(r),
{
    proof {
        lemma_scaled_velocity_bound(v.x as int, dt as int);
        lemma_scaled_velocity_bound(v.y as int, dt as int);
    }
    let sx = crate::num::scale64(v.x, dt, MICROS_PER_SEC);
    let sy = crate::num::scale64(v.y, dt, MICROS_PER_SEC);
    proof {
        crate::pathfinding::lemma_walls_bounded_geom(walls@);
    }
    let mut cur = Position { x: p.x + sx, y: p.y + sy };
    let ghost target = cur;
    let n = walls.len();
    let mut i: usize = 0;
    while i < n
        invariant
            n == walls@.len(),
            i <= n,
            0 <= radius <= crate::components::POS_LIMIT,
            crate::pathfinding::walls_bounded(walls@),
            walls_in_geom_range(walls@),
            crate::num::abs_spec(cur.x as int) <= 2 * crate::components::POS_LIMIT + 100000000,
            crate::num::abs_spec(cur.y as int) <= 2 * crate::components::POS_LIMIT + 100000000,
            resolve_from(walls@, i as int, cur, radius as int) == resolve_from(
                walls@,
                0,
                target,
                radius as int,
            ),
        decreases n - i,
    {
        let wall = walls[i];
        let hit = crate::collision::circle_rect_collision(
            cur,
            radius,
            wall.x,
            wall.y,
            wall.width,
            wall.height,
        );
        if hit {
            let wall_right = wall.x + wall.width;
            let wall_bottom = wall.y + wall.height;
            let dist_to_left = cur.x - (wall.x - radius);
            let dist_to_right = (wall_right + radius) - cur.x;
            let dist_to_top = cur.y - (wall.y - radius);
            let dist_to_bottom = (wall_bottom + radius) - cur.y;
            let m1 = if dist_to_right < dist_to_left {
                dist_to_right
            } else {
                dist_to_left
            };
            let m2 = if dist_to_top < m1 {
                dist_to_top
            } else {
                m1
            };
            let min_dist = if dist_to_bottom < m2 {
                dist_to_bottom
            } else {
                m2
            };
            if min_dist == dist_to_left && dist_to_left > 0 {
                cur = Position { x: wall.x - radius, ..cur };
            } else if min_dist == dist_to_right && dist_to_right > 0 {
                cur = Position { x: wall_right + radius, ..cur };
            } else if min_dist == dist_to_top && dist_to_top > 0 {
                cur = Position { y: wall.y - radius, ..cur };
            } else if min_dist == dist_to_bottom && dist_to_bottom > 0 {
                cur = Position { y: wall_bottom + radius, ..cur };
            }
        }
        i = i + 1;
    }
    let cx = if cur.x < -crate::components::POS_LIMIT {
        -crate::components::POS_LIMIT
    } else if cur.x > crate::components::POS_LIMIT {
        crate::components::POS_LIMIT
    } else {
        cur.x
    };
    let cy = if cur.y < -crate::components::POS_LIMIT {
        -crate::components::POS_LIMIT
    } else if cur.y > crate::components::POS_LIMIT {
        crate::components::POS_LIMIT
    } else {
        cur.y
    };
    Position { x: cx, y: cy }
}

/// A bounded velocity scaled over a bounded frame moves at most a hundred
/// million milli-units.
proof fn lemma_scaled_velocity_bound(a: int, dt: int)
    requires
        crate::num::abs_spec(a) <= crate::components::VEL_LIMIT,
        0 <= dt <= MAX_FRAME_DT,
    ensures
        0 <= crate::num::abs_spec(a) * dt / (MICROS_PER_SEC as int) <= 100000000,
{
    let m = crate::num::abs_spec(a);
    assert(m * dt <= 100000000000000) by (nonlinear_arith)
        requires
            0 <= m <= 1000000,
            0 <= dt <= 100000000,
    ;
    assert(m * dt >= 0) by (nonlinear_arith)
        requires
            m >= 0,
            dt >= 0,
    ;
    crate::num::lemma_div_le_self(m * dt, 1000000);
    vstd::arithmetic::div_mod::lemma_div_is_ordered(m * dt, 100000000000000, 1000000);
    vstd::arithmetic::div_mod::lemma_fundamental_div_mod_converse(
        100000000000000,
        1000000,
        100000000,
        0,
    );
}

} // verus!
