//! Player control: the computations behind input handling. The presentation
//! layer reads the keyboard and mouse and hands plain values in; everything
//! that decides or computes lives here.

use crate::components::{
    pos_bounded, Bullet, Position, Radius, Rotation, Velocity, Weapon, WeaponType,
};
use crate::ecs::component::{Component, ComponentId};
use crate::ecs::entity::Entity;
use crate::ecs::world::World;
use crate::game::player_id;
use vstd::prelude::*;

verus! {

/// The scaled unit component of a diagonal move: 707/1000 of the speed.
pub open spec fn diagonal_part(speed: int) -> int {
    speed * 707 / 1000
}

/// The signed velocity component for one axis, from the two key states on
/// that axis and whether the other axis is active too.
pub open spec fn axis_velocity(neg: bool, pos: bool, other_active: bool, speed: int) -> int {
    let mag = if other_active {
        diagonal_part(speed)
    } else {
        speed
    };
    if neg == pos {
        0
    } else if neg {
        -mag
    } else {
        mag
    }
}

/// Whether a held trigger sweeps a melee attack this frame: a player with
/// an in-bounds position and a ready melee weapon exists.
pub open spec fn melee_ready(w: World) -> bool {
    match player_id(w) {
        Some(pid) => match (
            w.lookup(Entity(pid), ComponentId::Position),
            w.lookup(Entity(pid), ComponentId::Weapon),
        ) {
            (Some(Component::Position(p)), Some(Component::Weapon(wp))) => {
                &&& pos_bounded(p)
                &&& wp.fire_timer <= 0
                &&& wp.ammo > 0
                &&& wp.weapon_type == WeaponType::Melee
            },
            _ => false,
        },
        None => false,
    }
}

/// Whether a held trigger fires a bullet this frame: a player with an
/// in-bounds position and a ready non-melee weapon exists, and an id is
/// free for the bullet.
pub open spec fn shot_ready(w: World) -> bool {
    match player_id(w) {
        Some(pid) => match (
            w.lookup(Entity(pid), ComponentId::Position),
            w.lookup(Entity(pid), ComponentId::Weapon),
        ) {
            (Some(Component::Position(p)), Some(Component::Weapon(wp))) => {
                &&& pos_bounded(p)
                &&& wp.fire_timer <= 0
                &&& wp.ammo > 0
                &&& wp.weapon_type != WeaponType::Melee
                &&& w.next_id() < u64::MAX
            },
            _ => false,
        },
        None => false,
    }
}

/// System that handles player input.
pub struct InputSystem;

impl InputSystem {
    /// The first player-tagged entity.
    pub fn find_player(world: &World) -> (r: Option<Entity>)
        requires
            world.wf(),
        ensures
            r is Some <==> world.query_spec(ComponentId::Player).len() > 0,
            r matches Some(e) ==> e == world.query_spec(ComponentId::Player)[0],
    {
        let players = world.query(ComponentId::Player);
        if players.len() > 0 {
            Some(players[0])
        } else {
            None
        }
    }

    /// Turns the player to face the given world position.
    pub fn update_player_rotation(world: &mut World, target_world_pos: Position)
        requires
            old(world).wf(),
            pos_bounded(target_world_pos),
        ensures
            final (world).wf(),
            final (world).live() == old(world).live(),
            final (world).walls_view() == old(world).walls_view(),
            final (world).next_id() == old(world).next_id(),
            final (world).cmap().dom() == old(world).cmap().dom(),
            forall|key: (u64, ComponentId)| #[trigger]
                old(world).cmap().contains_key(key) && key.1 != ComponentId::Rotation
                    ==> final (world).cmap()[key] == old(world).cmap()[key],
            forall|key: (u64, ComponentId)| #[trigger]
                old(world).cmap().contains_key(key) && key.1 == ComponentId::Rotation
                    && player_id(*old(world)) != Some(key.0) ==> final (world).cmap()[key]
                    == old(world).cmap()[key],
            (match (player_id(*old(world)), old(world).query_spec(ComponentId::Player)) {
                (Some(pid), _) => match (
                    old(world).lookup(Entity(pid), ComponentId::Position),
                    old(world).lookup(Entity(pid), ComponentId::Rotation),
                ) {
                    (Some(Component::Position(p)), Some(Component::Rotation(_))) => pos_bounded(
                        p,
                    ) ==> final (world).lookup(Entity(pid), ComponentId::Rotation) == Some(
                        Component::Rotation(
                            Rotation {
                                x: (target_world_pos.x - p.x) as i64,
                                y: (target_world_pos.y - p.y) as i64,
                            },
                        ),
                    ),
                    _ => true,
                },
                _ => true,
            }),
    {
        let player = match Self::find_player(world) {
            Some(e) => e,
            None => {
                return ;
            },
        };
        let player_pos = match world.get_component(player, ComponentId::Position) {
            Some(Component::Position(p)) => p,
            _ => {
                proof {
                    if world.cmap().contains_key((player.0, ComponentId::Position)) {
                        crate::ecs::world::World::lemma_lookup_kind(
                            *world,
                            player,
                            ComponentId::Position,
                        );
                    }
                }
                return ;
            },
        };
        if !(player_pos.x >= -crate::components::POS_LIMIT && player_pos.x
            <= crate::components::POS_LIMIT && player_pos.y >= -crate::components::POS_LIMIT
            && player_pos.y <= crate::components::POS_LIMIT) {
            return ;
        }
        let dx = target_world_pos.x - player_pos.x;
        let dy = target_world_pos.y - player_pos.y;
        match world.get_component(player, ComponentId::Rotation) {
            Some(Component::Rotation(_)) => {
                world.add_component(player, Component::Rotation(Rotation { x: dx, y: dy }));
                proof {
                    assert(world.cmap().dom() =~= old(world).cmap().dom());
                }
            },
            _ => {
                proof {
                    if world.cmap().contains_key((player.0, ComponentId::Rotation)) {
                        crate::ecs::world::World::lemma_lookup_kind(
                            *world,
                            player,
                            ComponentId::Rotation,
                        );
                    }
                }
            },
        }
    }

    /// Sets the player's velocity from the four directional key states,
    /// at the player's speed, with diagonal movement normalised.
    pub fn update_player_movement(
        world: &mut World,
        up: bool,
        down: bool,
        left: bool,
        right: bool,
    )
        requires
            old(world).wf(),
            old(world).bounded(),
        ensures
            final (world).wf(),
            final (world).live() == old(world).live(),
            final (world).walls_view() == old(world).walls_view(),
            final (world).next_id() == old(world).next_id(),
            final (world).cmap().dom() == old(world).cmap().dom(),
            forall|key: (u64, ComponentId)| #[trigger]
                old(world).cmap().contains_key(key) && key.1 != ComponentId::Velocity
                    ==> final (world).cmap()[key] == old(world).cmap()[key],
            forall|key: (u64, ComponentId)| #[trigger]
                old(world).cmap().contains_key(key) && key.1 == ComponentId::Velocity
                    && player_id(*old(world)) != Some(key.0) ==> final (world).cmap()[key]
                    == old(world).cmap()[key],
            old(world).query_spec(ComponentId::Player).len() > 0 && (match old(world).lookup(
                old(world).query_spec(ComponentId::Player)[0],
                ComponentId::Speed,
            ) {
                Some(Component::Speed(s)) => 0 <= s.value,
                _ => false,
            }) && old(world).cmap().contains_key(
                (old(world).query_spec(ComponentId::Player)[0].0, ComponentId::Velocity),
            ) ==> (match (
                old(world).lookup(
                    old(world).query_spec(ComponentId::Player)[0],
                    ComponentId::Speed,
                ),
                final (world).lookup(
                    old(world).query_spec(ComponentId::Player)[0],
                    ComponentId::Velocity,
                ),
            ) {
                (Some(Component::Speed(s)), Some(Component::Velocity(v))) => {
                    let xa = left != right;
                    let ya = up != down;
                    &&& v.x == axis_velocity(left, right, ya, s.value as int)
                    &&& v.y == axis_velocity(up, down, xa, s.value as int)
                },
                _ => false,
            }),
    {
        let player = match Self::find_player(world) {
            Some(e) => e,
            None => {
                return ;
            },
        };
        let speed = match world.get_component(player, ComponentId::Speed) {
            Some(Component::Speed(s)) => s.value,
            _ => {
                proof {
                    if world.cmap().contains_key((player.0, ComponentId::Speed)) {
                        crate::ecs::world::World::lemma_lookup_kind(
                            *world,
                            player,
                            ComponentId::Speed,
                        );
                    }
                }
                return ;
            },
        };
        if speed < 0 {
            return ;
        }
        proof {
            assert(crate::ecs::component::component_bounded(
                old(world).cmap()[(player.0, ComponentId::Speed)],
            ));
            crate::num::lemma_div_le_self(speed * 707, 1000);
            assert(0 <= speed * 707 <= 1000000000) by (nonlinear_arith)
                requires
                    0 <= speed as int <= 1000000,
            ;
        }
        let x_active = left != right;
        let y_active = up != down;
        let diag = speed * 707 / 1000;
        let vx: i64 = if !x_active {
            0
        } else {
            let mag = if y_active {
                diag
            } else {
                speed
            };
            if left {
                -mag
            } else {
                mag
            }
        };
        let vy: i64 = if !y_active {
            0
        } else {
            let mag = if x_active {
                diag
            } else {
                speed
            };
            if up {
                -mag
            } else {
                mag
            }
        };
        match world.get_component(player, ComponentId::Velocity) {
            Some(Component::Velocity(_)) => {
                world.add_component(player, Component::Velocity(Velocity { x: vx, y: vy }));
                proof {
                    assert(world.cmap().dom() =~= old(world).cmap().dom());
                }
            },
            _ => {
                proof {
                    if world.cmap().contains_key((player.0, ComponentId::Velocity)) {
                        crate::ecs::world::World::lemma_lookup_kind(
                            *world,
                            player,
                            ComponentId::Velocity,
                        );
                    }
                }
            },
        }
    }

    /// Fires the player's weapon toward `target_pos` when the trigger is
    /// held and the weapon is ready: a melee weapon sweeps immediately, any
    /// other spawns a bullet flying at the target. Returns whether a melee
    /// sweep connected.
    pub fn handle_shoot_input(world: &mut World, target_pos: Position, trigger: bool) -> (r:
        bool)
        requires
            old(world).wf(),
            old(world).bounded(),
            pos_bounded(target_pos),
        ensures
            final (world).wf(),
            final (world).walls_view() == old(world).walls_view(),
            !trigger ==> *final (world) == *old(world) && r == false,
            trigger && shot_ready(*old(world)) ==> {
                let pid = player_id(*old(world)).unwrap();
                &&& final (world).next_id() == old(world).next_id() + 1
                &&& (match (
                    old(world).lookup(Entity(pid), ComponentId::Weapon),
                    final (world).lookup(Entity(pid), ComponentId::Weapon),
                ) {
                    (Some(Component::Weapon(w0)), Some(Component::Weapon(w1))) => w1.ammo
                        == w0.ammo - 1 && w1.fire_timer == w0.fire_rate,
                    _ => false,
                })
                &&& final (world).cmap().contains_key(
                    (old(world).next_id(), ComponentId::Bullet),
                )
            },
            trigger && melee_ready(*old(world)) ==> {
                let pid = player_id(*old(world)).unwrap();
                &&& final (world).next_id() == old(world).next_id()
                &&& (match (
                    old(world).lookup(Entity(pid), ComponentId::Weapon),
                    final (world).lookup(Entity(pid), ComponentId::Weapon),
                ) {
                    (Some(Component::Weapon(w0)), Some(Component::Weapon(w1))) => w1.ammo
                        == w0.ammo - 1 && w1.fire_timer == w0.fire_rate,
                    _ => false,
                })
                &&& (match old(world).lookup(Entity(pid), ComponentId::Position) {
                    Some(Component::Position(ppos)) => r == exists|e: Entity|
                        old(world).cmap().contains_key((e.0, ComponentId::Enemy))
                            && #[trigger] crate::systems::combat::melee_hits(
                            *old(world),
                            e.0,
                            ppos,
                            target_pos,
                            50000,
                        ),
                    _ => true,
                })
            },
    {
        if !trigger {
            return false;
        }
        let player = match Self::find_player(world) {
            Some(e) => e,
            None => {
                return false;
            },
        };
        let player_pos = match world.get_component(player, ComponentId::Position) {
            Some(Component::Position(p)) => p,
            _ => {
                return false;
            },
        };
        if !(player_pos.x >= -crate::components::POS_LIMIT && player_pos.x
            <= crate::components::POS_LIMIT && player_pos.y >= -crate::components::POS_LIMIT
            && player_pos.y <= crate::components::POS_LIMIT) {
            return false;
        }
        let weapon = match world.get_component(player, ComponentId::Weapon) {
            Some(Component::Weapon(w)) => w,
            _ => {
                return false;
            },
        };
        if !weapon.can_fire() {
            return false;
        }
        proof {
            assert(crate::ecs::component::component_bounded(
                old(world).cmap()[(player.0, ComponentId::Weapon)],
            ));
        }
        let damage = if weapon.damage >= 0 {
            weapon.damage
        } else {
            0
        };
        let is_melee = matches!(weapon.weapon_type, WeaponType::Melee);
        let mut weapon = weapon;
        weapon.fire();
        world.add_component(player, Component::Weapon(weapon));

        if is_melee {
            let ghost mid = *world;
            let hit = crate::systems::combat::CombatSystem::process_melee(
                world,
                player_pos,
                target_pos,
                damage,
                50000,
            );
            proof {
                assert forall|e: Entity|
                    #[trigger] crate::systems::combat::melee_hits(
                        mid,
                        e.0,
                        player_pos,
                        target_pos,
                        50000,
                    ) == crate::systems::combat::melee_hits(
                    *old(world),
                    e.0,
                    player_pos,
                    target_pos,
                    50000,
                ) by {
                    assert(mid.lookup(Entity(e.0), ComponentId::Position) == old(world).lookup(
                        Entity(e.0),
                        ComponentId::Position,
                    ));
                    assert(mid.lookup(Entity(e.0), ComponentId::Health) == old(world).lookup(
                        Entity(e.0),
                        ComponentId::Health,
                    ));
                }
                assert(hit == exists|e: Entity|
                    old(world).cmap().contains_key((e.0, ComponentId::Enemy))
                        && #[trigger] crate::systems::combat::melee_hits(
                        *old(world),
                        e.0,
                        player_pos,
                        target_pos,
                        50000,
                    )) by {
                    if hit {
                        let e = choose|e: Entity|
                            mid.cmap().contains_key((e.0, ComponentId::Enemy))
                                && #[trigger] crate::systems::combat::melee_hits(
                                mid,
                                e.0,
                                player_pos,
                                target_pos,
                                50000,
                            );
                        assert(crate::systems::combat::melee_hits(
                            *old(world),
                            e.0,
                            player_pos,
                            target_pos,
                            50000,
                        ));
                        assert(old(world).cmap().contains_key((e.0, ComponentId::Enemy)));
                    } else {
                        if exists|e: Entity|
                            old(world).cmap().contains_key((e.0, ComponentId::Enemy))
                                && #[trigger] crate::systems::combat::melee_hits(
                                *old(world),
                                e.0,
                                player_pos,
                                target_pos,
                                50000,
                            ) {
                            let e = choose|e: Entity|
                                old(world).cmap().contains_key((e.0, ComponentId::Enemy))
                                    && #[trigger] crate::systems::combat::melee_hits(
                                    *old(world),
                                    e.0,
                                    player_pos,
                                    target_pos,
                                    50000,
                                );
                            assert(crate::systems::combat::melee_hits(
                                mid,
                                e.0,
                                player_pos,
                                target_pos,
                                50000,
                            ));
                            assert(mid.cmap().contains_key((e.0, ComponentId::Enemy)));
                            assert(false);
                        }
                    }
                }
            }
            hit
        } else {
            // Spawn a physical bullet flying from the player at the target.
            if world.next_id_hint() == u64::MAX {
                return false;
            }
            let bullet_entity = world.spawn();
            let bullet = Bullet::new(damage);
            let dist = player_pos.distance_to(&target_pos);
            let vel = if dist > 0 {
                let dx = target_pos.x - player_pos.x;
                let dy = target_pos.y - player_pos.y;
                proof {
                    lemma_shot_components(dx as int, dy as int, dist as int, player_pos, target_pos);
                }
                let vx = crate::num::scale64(dx, bullet.speed, dist);
                let vy = crate::num::scale64(dy, bullet.speed, dist);
                Velocity { x: vx, y: vy }
            } else {
                Velocity { x: 0, y: 0 }
            };
            world.add_component(bullet_entity, Component::Bullet(bullet));
            world.add_component(bullet_entity, Component::Position(player_pos));
            world.add_component(bullet_entity, Component::Velocity(vel));
            world.add_component(bullet_entity, Component::Radius(Radius { value: 2000 }));
            false
        }
    }

    /// Switches the player's weapon to the chosen kind, if any was chosen;
    /// the new weapon comes with a full magazine.
    pub fn handle_weapon_switch(world: &mut World, choice: Option<WeaponType>)
        requires
            old(world).wf(),
        ensures
            final (world).wf(),
            final (world).live() == old(world).live(),
            final (world).walls_view() == old(world).walls_view(),
            final (world).next_id() == old(world).next_id(),
            final (world).cmap().dom() == old(world).cmap().dom(),
            forall|key: (u64, ComponentId)| #[trigger]
                old(world).cmap().contains_key(key) && key.1 != ComponentId::Weapon
                    ==> final (world).cmap()[key] == old(world).cmap()[key],
            choice is None ==> *final (world) == *old(world),
            (match choice {
                Some(t) => old(world).query_spec(ComponentId::Player).len() > 0 && old(
                    world,
                ).cmap().contains_key(
                    (old(world).query_spec(ComponentId::Player)[0].0, ComponentId::Weapon),
                ) ==> (match final (world).lookup(
                    old(world).query_spec(ComponentId::Player)[0],
                    ComponentId::Weapon,
                ) {
                    Some(Component::Weapon(w)) => w.weapon_type == t && w.ammo == w.max_ammo
                        && w.fire_timer == 0,
                    _ => false,
                }),
                None => true,
            }),
    {
        let t = match choice {
            Some(t) => t,
            None => {
                return ;
            },
        };
        let player = match Self::find_player(world) {
            Some(e) => e,
            None => {
                return ;
            },
        };
        match world.get_component(player, ComponentId::Weapon) {
            Some(Component::Weapon(_)) => {
                let w = Weapon::new(t);
                world.add_component(player, Component::Weapon(w));
                proof {
                    assert(world.cmap().dom() =~= old(world).cmap().dom());
                }
            },
            _ => {
                proof {
                    if world.cmap().contains_key((player.0, ComponentId::Weapon)) {
                        crate::ecs::world::World::lemma_lookup_kind(
                            *world,
                            player,
                            ComponentId::Weapon,
                        );
                    }
                }
            },
        }
    }
}

/// The offsets toward a shot target are bounded by the distance and keep
/// the scaled bullet velocity within range.
proof fn lemma_shot_components(dx: int, dy: int, dist: int, a: Position, b: Position)
    requires
        dx == b.x - a.x,
        dy == b.y - a.y,
        1 <= dist,
        crate::components::dist_sq(a, b) < (dist + 1) * (dist + 1),
        dx * dx + dy * dy == crate::components::dist_sq(a, b),
    ensures
        crate::num::abs_spec(dx) <= dist,
        crate::num::abs_spec(dy) <= dist,
        0 <= crate::num::abs_spec(dx) * 800000 / dist <= 800000,
        0 <= crate::num::abs_spec(dy) * 800000 / dist <= 800000,
{
    assert(dx * dx >= 0 && dy * dy >= 0) by (nonlinear_arith);
    if dx > dist {
        assert(dx * dx >= (dist + 1) * (dist + 1)) by (nonlinear_arith)
            requires
                dx >= dist + 1,
                dist + 1 >= 1,
        ;
        assert(false);
    }
    if dx < -dist {
        assert(dx * dx >= (dist + 1) * (dist + 1)) by (nonlinear_arith)
            requires
                -dx >= dist + 1,
                dist + 1 >= 1,
        ;
        assert(false);
    }
    if dy > dist {
        assert(dy * dy >= (dist + 1) * (dist + 1)) by (nonlinear_arith)
            requires
                dy >= dist + 1,
                dist + 1 >= 1,
        ;
        assert(false);
    }
    if dy < -dist {
        assert(dy * dy >= (dist + 1) * (dist + 1)) by (nonlinear_arith)
            requires
                -dy >= dist + 1,
                dist + 1 >= 1,
        ;
        assert(false);
    }
    assert(0 <= crate::num::abs_spec(dx) * 800000 <= dist * 800000) by (nonlinear_arith)
        requires
            0 <= crate::num::abs_spec(dx) <= dist,
    ;
    assert(0 <= crate::num::abs_spec(dy) * 800000 <= dist * 800000) by (nonlinear_arith)
        requires
            0 <= crate::num::abs_spec(dy) <= dist,
    ;
    vstd::arithmetic::div_mod::lemma_div_is_ordered(0, crate::num::abs_spec(dx) * 800000, dist);
    vstd::arithmetic::div_mod::lemma_div_is_ordered(0, crate::num::abs_spec(dy) * 800000, dist);
    vstd::arithmetic::div_mod::lemma_div_is_ordered(
        crate::num::abs_spec(dx) * 800000,
        dist * 800000,
        dist,
    );
    vstd::arithmetic::div_mod::lemma_div_is_ordered(
        crate::num::abs_spec(dy) * 800000,
        dist * 800000,
        dist,
    );
    vstd::arithmetic::div_mod::lemma_div_multiples_vanish(800000, dist);
    assert(dist * 800000 == 800000 * dist) by (nonlinear_arith);
}

} // verus!
