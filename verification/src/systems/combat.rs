//! Combat resolution: hitscan shots, melee sweeps, and enemy attacks on
//! the player.

use crate::components::{dist_sq, pos_bounded, AIState, Position};
use crate::ecs::component::{Component, ComponentId};
use crate::ecs::entity::Entity;
use crate::ecs::system::{System, MAX_FRAME_DT};
use crate::ecs::world::World;
use crate::game::player_id;
use crate::num::abs_spec;
use vstd::prelude::*;

verus! {

/// Whether the closed segment from `a` to `b` passes within `r` of `c`:
/// the squared distance from `c` to the segment is at most `r` squared,
/// stated over the clamped projection without any division.
pub open spec fn seg_circle_hit(a: Position, b: Position, c: Position, r: int) -> bool {
    let dx = b.x - a.x;
    let dy = b.y - a.y;
    let fx = c.x - a.x;
    let fy = c.y - a.y;
    let len2 = dx * dx + dy * dy;
    let t_num = fx * dx + fy * dy;
    if len2 == 0 {
        dist_sq(a, c) <= r * r
    } else if t_num <= 0 {
        dist_sq(a, c) <= r * r
    } else if t_num >= len2 {
        dist_sq(b, c) <= r * r
    } else {
        (fx * fx + fy * fy) * len2 - t_num * t_num <= r * r * len2
    }
}

/// Whether the enemy with id `id` stands in the path of a shot from
/// `shooter` toward `target`: it carries position, radius and health, is
/// alive, and the segment passes through its circle.
pub open spec fn shot_hits(w: World, id: u64, shooter: Position, target: Position) -> bool {
    &&& w.cmap().contains_key((id, ComponentId::Position))
    &&& w.cmap().contains_key((id, ComponentId::Radius))
    &&& w.cmap().contains_key((id, ComponentId::Health))
    &&& match (
        w.cmap()[(id, ComponentId::Position)],
        w.cmap()[(id, ComponentId::Radius)],
        w.cmap()[(id, ComponentId::Health)],
    ) {
        (Component::Position(p), Component::Radius(r), Component::Health(h)) => h.current > 0
            && seg_circle_hit(shooter, target, p, r.value as int),
        _ => false,
    }
}

/// System that handles combat damage dealing.
pub struct CombatSystem;

impl CombatSystem {
    /// Whether a segment (a bullet's path) passes within `radius` of the
    /// circle centre; touching counts.
    pub fn line_circle_collision(
        start: &Position,
        end: &Position,
        circle: &Position,
        radius: i64,
    ) -> (r: bool)
        requires
            pos_bounded(*start),
            pos_bounded(*end),
            pos_bounded(*circle),
            0 <= radius <= crate::components::POS_LIMIT,
        ensures
            r == seg_circle_hit(*start, *end, *circle, radius as int),
    {
        let dx = (end.x as i128) - (start.x as i128);
        let dy = (end.y as i128) - (start.y as i128);
        let fx = (circle.x as i128) - (start.x as i128);
        let fy = (circle.y as i128) - (start.y as i128);
        proof {
            lemma_combat_products(dx as int, dy as int, fx as int, fy as int, radius as int);
        }
        let len2 = dx * dx + dy * dy;
        let t_num = fx * dx + fy * dy;
        let r2 = (radius as i128) * (radius as i128);
        if len2 == 0 {
            fx * fx + fy * fy <= r2
        } else if t_num <= 0 {
            fx * fx + fy * fy <= r2
        } else if t_num >= len2 {
            let gx = (circle.x as i128) - (end.x as i128);
            let gy = (circle.y as i128) - (end.y as i128);
            proof {
                lemma_combat_products(gx as int, gy as int, gx as int, gy as int, radius as int);
            }
            gx * gx + gy * gy <= r2
        } else {
            (fx * fx + fy * fy) * len2 - t_num * t_num <= r2 * len2
        }
    }

    /// Fires a hitscan shot from `shooter_pos` toward `target_pos`: the
    /// first live enemy (in query order) whose circle the segment crosses
    /// takes `damage`; returns whether anything was hit, which happens
    /// exactly when some enemy stands in the shot's path.
    pub fn process_shoot(
        world: &mut World,
        shooter_pos: Position,
        target_pos: Position,
        damage: i32,
    ) -> (r: bool)
        requires
            old(world).wf(),
            old(world).bounded(),
            pos_bounded(shooter_pos),
            pos_bounded(target_pos),
            0 <= damage,
        ensures
            final (world).wf(),
            final (world).live() == old(world).live(),
            final (world).walls_view() == old(world).walls_view(),
            final (world).next_id() == old(world).next_id(),
            final (world).cmap().dom() == old(world).cmap().dom(),
            r == exists|e: Entity|
                old(world).cmap().contains_key((e.0, ComponentId::Enemy)) && #[trigger] shot_hits(
                    *old(world),
                    e.0,
                    shooter_pos,
                    target_pos,
                ),
            !r ==> final (world).cmap() == old(world).cmap(),
            r ==> exists|e: Entity|
                {
                    &&& old(world).cmap().contains_key((e.0, ComponentId::Enemy))
                    &&& #[trigger] shot_hits(*old(world), e.0, shooter_pos, target_pos)
                    &&& final (world).cmap() == old(world).cmap().insert(
                        (e.0, ComponentId::Health),
                        match old(world).cmap()[(e.0, ComponentId::Health)] {
                            Component::Health(h) => Component::Health(
                                crate::components::Health {
                                    current: (if h.current - damage >= 0 {
                                        h.current - damage
                                    } else {
                                        0int
                                    }) as i32,
                                    max: h.max,
                                },
                            ),
                            c => c,
                        },
                    )
                },
    {
        let enemies = world.query(ComponentId::Enemy);
        let n = enemies.len();
        proof {
            crate::ecs::world::lemma_query_exact(*world, ComponentId::Enemy);
        }
        let mut k: usize = 0;
        while k < n
            invariant
                world.wf(),
                world.bounded(),
                pos_bounded(shooter_pos),
                pos_bounded(target_pos),
                0 <= damage,
                n == enemies@.len(),
                k <= n,
                *world == *old(world),
                enemies@ == old(world).query_spec(ComponentId::Enemy),
                forall|e2: Entity| #[trigger]
                    old(world).query_spec(ComponentId::Enemy).contains(e2) <==> old(
                        world,
                    ).cmap().contains_key((e2.0, ComponentId::Enemy)),
                forall|t: int|
                    0 <= t < k ==> !shot_hits(
                        *old(world),
                        (#[trigger] enemies@[t]).0,
                        shooter_pos,
                        target_pos,
                    ),
            decreases n - k,
        {
            let enemy = enemies[k];
            proof {
                assert(enemies@.contains(enemies@[k as int]));
            }
            let ep_c = world.get_component(enemy, ComponentId::Position);
            let er_c = world.get_component(enemy, ComponentId::Radius);
            let eh_c = world.get_component(enemy, ComponentId::Health);
            match (ep_c, er_c, eh_c) {
                (
                    Some(Component::Position(ep)),
                    Some(Component::Radius(er)),
                    Some(Component::Health(eh)),
                ) => {
                    proof {
                        assert(crate::ecs::component::component_bounded(
                            world.cmap()[(enemy.0, ComponentId::Position)],
                        ));
                        assert(crate::ecs::component::component_bounded(
                            world.cmap()[(enemy.0, ComponentId::Radius)],
                        ));
                    }
                    let rad = if er.value < 0 {
                        0
                    } else {
                        er.value
                    };
                    if eh.is_alive() && rad == er.value && Self::line_circle_collision(
                        &shooter_pos,
                        &target_pos,
                        &ep,
                        rad,
                    ) {
                        let mut eh = eh;
                        eh.take_damage(damage);
                        world.add_component(enemy, Component::Health(eh));
                        proof {
                            assert(world.cmap().dom() =~= old(world).cmap().dom());
                            assert(shot_hits(*old(world), enemy.0, shooter_pos, target_pos));
                        }
                        return true;
                    } else {
                        proof {
                            if er.value < 0 {
                                assert(!shot_hits(
                                    *old(world),
                                    enemy.0,
                                    shooter_pos,
                                    target_pos,
                                ));
                            }
                        }
                    }
                },
                _ => {
                },
            }
            k = k + 1;
        }
        proof {
            if exists|e: Entity|
                old(world).cmap().contains_key((e.0, ComponentId::Enemy)) && #[trigger] shot_hits(
                    *old(world),
                    e.0,
                    shooter_pos,
                    target_pos,
                ) {
                let e = choose|e: Entity|
                    old(world).cmap().contains_key((e.0, ComponentId::Enemy))
                        && #[trigger] shot_hits(*old(world), e.0, shooter_pos, target_pos);
                assert(old(world).query_spec(ComponentId::Enemy).contains(e));
                let t = choose|t: int| 0 <= t < enemies@.len() && enemies@[t] == e;
                assert(!shot_hits(*old(world), enemies@[t].0, shooter_pos, target_pos));
            }
        }
        false
    }
}

/// Products of bounded combat offsets stay far inside the wide integers.
proof fn lemma_combat_products(dx: int, dy: int, fx: int, fy: int, r: int)
    requires
        abs_spec(dx) <= 200000000,
        abs_spec(dy) <= 200000000,
        abs_spec(fx) <= 200000000,
        abs_spec(fy) <= 200000000,
        0 <= r <= 100000000,
    ensures
        0 <= dx * dx <= 40000000000000000,
        0 <= dy * dy <= 40000000000000000,
        0 <= fx * fx <= 40000000000000000,
        0 <= fy * fy <= 40000000000000000,
        abs_spec(fx * dx) <= 40000000000000000,
        abs_spec(fy * dy) <= 40000000000000000,
        abs_spec(fx * dy) <= 40000000000000000,
        abs_spec(fy * dx) <= 40000000000000000,
        0 <= dx * dx + dy * dy <= 80000000000000000,
        abs_spec(fx * dx + fy * dy) <= 80000000000000000,
        0 <= fx * fx + fy * fy <= 80000000000000000,
        0 <= r * r <= 10000000000000000,
        0 <= (fx * fx + fy * fy) * (dx * dx + dy * dy) <= 6400000000000000000000000000000000,
        0 <= (fx * dx + fy * dy) * (fx * dx + fy * dy) <= 6400000000000000000000000000000000,
        0 <= (r * r) * (dx * dx + dy * dy) <= 6400000000000000000000000000000000,
{
    assert(0 <= dx * dx <= 40000000000000000 && 0 <= dy * dy <= 40000000000000000 && 0 <= fx * fx
        <= 40000000000000000 && 0 <= fy * fy <= 40000000000000000 && abs_spec(fx * dx)
        <= 40000000000000000 && abs_spec(fy * dy) <= 40000000000000000 && abs_spec(fx * dy)
        <= 40000000000000000 && abs_spec(fy * dx) <= 40000000000000000 && 0 <= dx * dx + dy * dy
        <= 80000000000000000 && abs_spec(fx * dx + fy * dy) <= 80000000000000000 && 0 <= fx * fx
        + fy * fy <= 80000000000000000 && 0 <= r * r <= 10000000000000000) by (nonlinear_arith)
        requires
            abs_spec(dx) <= 200000000,
            abs_spec(dy) <= 200000000,
            abs_spec(fx) <= 200000000,
            abs_spec(fy) <= 200000000,
            0 <= r <= 100000000,
    ;
    assert(0 <= (fx * fx + fy * fy) * (dx * dx + dy * dy) <= 6400000000000000000000000000000000
        && 0 <= (fx * dx + fy * dy) * (fx * dx + fy * dy)
        <= 6400000000000000000000000000000000 && 0 <= (r * r) * (dx * dx + dy * dy)
        <= 6400000000000000000000000000000000) by (nonlinear_arith)
        requires
            0 <= dx * dx + dy * dy <= 80000000000000000,
            abs_spec(fx * dx + fy * dy) <= 80000000000000000,
            0 <= fx * fx + fy * fy <= 80000000000000000,
            0 <= r * r <= 10000000000000000,
    ;
}

/// Whether the enemy with id `id` is caught by a melee sweep from
/// `attacker` toward `target` with reach `range`: it carries position and
/// health, is alive, is within reach, and lies strictly inside the
/// ninety-degree cone around the attack direction.
pub open spec fn melee_hits(w: World, id: u64, attacker: Position, target: Position, range: int,) -> bool {
    &&& w.cmap().contains_key((id, ComponentId::Position))
    &&& w.cmap().contains_key((id, ComponentId::Health))
    &&& match (w.cmap()[(id, ComponentId::Position)], w.cmap()[(id, ComponentId::Health)]) {
        (Component::Position(p), Component::Health(h)) => {
            let dir = melee_dir(attacker, target);
            let ex = p.x - attacker.x;
            let ey = p.y - attacker.y;
            &&& h.current > 0
            &&& dist_sq(attacker, p) < (range + 1) * (range + 1)
            &&& dir.0 * ex + dir.1 * ey > abs_spec(dir.0 * ey - dir.1 * ex)
        },
        _ => false,
    }
}

/// The attack direction of a melee sweep; an attacker striking its own
/// position sweeps along the positive x axis.
pub open spec fn melee_dir(attacker: Position, target: Position) -> (int, int) {
    if target.x == attacker.x && target.y == attacker.y {
        (1000int, 0int)
    } else {
        ((target.x - attacker.x) as int, (target.y - attacker.y) as int)
    }
}

/// Whether the enemy with id `id` strikes the player this frame: a player
/// with a position exists, the enemy is alive, in the legacy attack state
/// with its cooldown elapsed, its values are in bounds, and the player is
/// strictly within its attack range.
pub open spec fn attack_fires(w: World, id: u64) -> bool {
    &&& (match player_id(w) {
        Some(pid) => match w.lookup(Entity(pid), ComponentId::Position) {
            Some(Component::Position(ppos)) => match (
                w.lookup(Entity(id), ComponentId::Ai),
                w.lookup(Entity(id), ComponentId::Position),
                w.lookup(Entity(id), ComponentId::Health),
            ) {
                (
                    Some(Component::Ai(ai)),
                    Some(Component::Position(ep)),
                    Some(Component::Health(h)),
                ) => {
                    &&& h.current > 0
                    &&& 0 <= ai.attack_range <= crate::components::POS_LIMIT
                    &&& pos_bounded(ep)
                    &&& ai.state == AIState::Attack
                    &&& ai.attack_timer <= 0
                    &&& dist_sq(ep, ppos) < ai.attack_range * ai.attack_range
                },
                _ => false,
            },
            _ => false,
        },
        None => false,
    })
}

/// An AI record with its attack timer restarted at the cooldown.
pub open spec fn with_timer_reset(a: crate::components::AI) -> crate::components::AI {
    crate::components::AI { attack_timer: a.attack_cooldown, ..a }
}

/// Health after `n` strikes of ten damage, each clamped at zero.
pub open spec fn dmg_fold(c: int, n: nat) -> int
    decreases n,
{
    if n == 0 {
        c
    } else {
        let p = dmg_fold(c, (n - 1) as nat);
        if p - 10 >= 0 {
            p - 10
        } else {
            0
        }
    }
}

/// How many of the listed enemies other than the player strike this frame.
pub open spec fn fires_count(w: World, s: Seq<Entity>, pid: u64) -> nat
    decreases s.len(),
{
    if s.len() == 0 {
        0
    } else {
        fires_count(w, s.drop_last(), pid) + (if s.last().0 != pid && attack_fires(
            w,
            s.last().0,
        ) {
            1nat
        } else {
            0nat
        })
    }
}

/// The fold of clamped strikes stays within the range of its start.
proof fn lemma_dmg_fold_range(c: int, n: nat)
    requires
        -2147483648 <= c <= 2147483647,
    ensures
        -2147483648 <= dmg_fold(c, n) <= 2147483647,
    decreases n,
{
    if n > 0 {
        lemma_dmg_fold_range(c, (n - 1) as nat);
    }
}

impl CombatSystem {
    /// Sweeps a melee attack from `attacker_pos` toward `target_pos`:
    /// every live enemy within `range` and strictly inside the
    /// ninety-degree cone around the attack direction takes `damage`;
    /// returns whether any enemy was caught.
    pub fn process_melee(
        world: &mut World,
        attacker_pos: Position,
        target_pos: Position,
        damage: i32,
        range: i64,
    ) -> (r: bool)
        requires
            old(world).wf(),
            old(world).bounded(),
            pos_bounded(attacker_pos),
            pos_bounded(target_pos),
            0 <= damage,
            0 <= range <= crate::components::POS_LIMIT,
        ensures
            final (world).wf(),
            final (world).live() == old(world).live(),
            final (world).walls_view() == old(world).walls_view(),
            final (world).next_id() == old(world).next_id(),
            final (world).cmap().dom() == old(world).cmap().dom(),
            forall|key: (u64, ComponentId)| #[trigger]
                old(world).cmap().contains_key(key) && key.1 != ComponentId::Health ==> final (world).cmap()[key]
                    == old(world).cmap()[key],
            forall|key: (u64, ComponentId)| #[trigger]
                old(world).cmap().contains_key(key) && key.1 == ComponentId::Health ==> final (world).cmap()[key]
                    == (if old(world).cmap().contains_key((key.0, ComponentId::Enemy))
                    && melee_hits(*old(world), key.0, attacker_pos, target_pos, range as int) {
                    match old(world).cmap()[key] {
                        Component::Health(h) => Component::Health(
                            crate::components::Health {
                                current: (if h.current - damage >= 0 {
                                    h.current - damage
                                } else {
                                    0int
                                }) as i32,
                                max: h.max,
                            },
                        ),
                        c => c,
                    }
                } else {
                    old(world).cmap()[key]
                }),
            r == exists|e: Entity|
                old(world).cmap().contains_key((e.0, ComponentId::Enemy))
                    && #[trigger] melee_hits(
                    *old(world),
                    e.0,
                    attacker_pos,
                    target_pos,
                    range as int,
                ),
    {
        let enemies = world.query(ComponentId::Enemy);
        let n = enemies.len();
        proof {
            crate::ecs::world::lemma_query_exact(*world, ComponentId::Enemy);
        }
        let mut hit_any = false;
        let mut k: usize = 0;
        while k < n
            invariant
                world.wf(),
                old(world).bounded(),
                pos_bounded(attacker_pos),
                pos_bounded(target_pos),
                0 <= damage,
                0 <= range <= crate::components::POS_LIMIT,
                n == enemies@.len(),
                k <= n,
                enemies@ == old(world).query_spec(ComponentId::Enemy),
                forall|e2: Entity| #[trigger]
                    old(world).query_spec(ComponentId::Enemy).contains(e2) <==> old(
                        world,
                    ).cmap().contains_key((e2.0, ComponentId::Enemy)),
                forall|a: int, b: int| 0 <= a < b < enemies@.len() ==> enemies@[a] != enemies@[b],
                world.live() == old(world).live(),
                world.walls_view() == old(world).walls_view(),
                world.next_id() == old(world).next_id(),
                world.cmap().dom() == old(world).cmap().dom(),
                forall|key: (u64, ComponentId)| #[trigger]
                    old(world).cmap().contains_key(key) && key.1 != ComponentId::Health
                        ==> world.cmap()[key] == old(world).cmap()[key],
                forall|key: (u64, ComponentId)| #[trigger]
                    old(world).cmap().contains_key(key) && key.1 == ComponentId::Health
                        ==> world.cmap()[key] == (if (exists|t: int|
                        0 <= t < k && (#[trigger] enemies@[t]).0 == key.0) && melee_hits(
                        *old(world),
                        key.0,
                        attacker_pos,
                        target_pos,
                        range as int,
                    ) {
                        match old(world).cmap()[key] {
                            Component::Health(h) => Component::Health(
                                crate::components::Health {
                                    current: (if h.current - damage >= 0 {
                                        h.current - damage
                                    } else {
                                        0int
                                    }) as i32,
                                    max: h.max,
                                },
                            ),
                            c => c,
                        }
                    } else {
                        old(world).cmap()[key]
                    }),
                hit_any == exists|t: int|
                    0 <= t < k && melee_hits(
                        *old(world),
                        (#[trigger] enemies@[t]).0,
                        attacker_pos,
                        target_pos,
                        range as int,
                    ),
            decreases n - k,
        {
            let enemy = enemies[k];
            proof {
                assert(enemies@.contains(enemies@[k as int]));
                if exists|t: int| 0 <= t < k && (#[trigger] enemies@[t]).0 == enemy.0 {
                    let t = choose|t: int| 0 <= t < k && (#[trigger] enemies@[t]).0 == enemy.0;
                    assert(enemies@[t] == enemy);
                    assert(false);
                }
            }
            let ep_c = world.get_component(enemy, ComponentId::Position);
            let eh_c = world.get_component(enemy, ComponentId::Health);
            let ghost hit_before = hit_any;
            match (ep_c, eh_c) {
                (Some(Component::Position(ep)), Some(Component::Health(eh))) => {
                    proof {
                        assert(crate::ecs::component::component_bounded(
                            world.cmap()[(enemy.0, ComponentId::Position)],
                        ));
                    }
                    let dist = attacker_pos.distance_to(&ep);
                    let caught = if eh.is_alive() && dist <= range {
                        Self::in_melee_cone(&attacker_pos, &target_pos, &ep)
                    } else {
                        false
                    };
                    proof {
                        assert(dist <= range <==> dist_sq(attacker_pos, ep) < (range + 1) * (
                        range + 1)) by {
                            if dist <= range {
                                vstd::arithmetic::mul::lemma_mul_inequality(
                                    (dist + 1) as int,
                                    (range + 1) as int,
                                    (dist + 1) as int,
                                );
                                assert((dist + 1) * (dist + 1) <= (range + 1) * (range + 1))
                                    by (nonlinear_arith)
                                    requires
                                        0 <= dist as int + 1 <= range as int + 1,
                                ;
                            } else {
                                assert((range + 1) * (range + 1) <= (dist as int) * (
                                dist as int)) by (nonlinear_arith)
                                    requires
                                        0 <= range as int + 1 <= dist as int,
                                ;
                            }
                        }
                        assert(caught == melee_hits(
                            *old(world),
                            enemy.0,
                            attacker_pos,
                            target_pos,
                            range as int,
                        ));
                    }
                    if caught {
                        let mut eh = eh;
                        eh.take_damage(damage);
                        world.add_component(enemy, Component::Health(eh));
                        hit_any = true;
                        proof {
                            assert(world.cmap().dom() =~= old(world).cmap().dom());
                        }
                    }
                },
                _ => {
                    proof {
                        assert(!melee_hits(
                            *old(world),
                            enemy.0,
                            attacker_pos,
                            target_pos,
                            range as int,
                        ));
                    }
                },
            }
            proof {
                let processed = |key: (u64, ComponentId)|
                    exists|t: int| 0 <= t < k + 1 && (#[trigger] enemies@[t]).0 == key.0;
                assert forall|key: (u64, ComponentId)| #[trigger]
                    old(world).cmap().contains_key(key) && key.1 == ComponentId::Health
                    implies world.cmap()[key] == (if (exists|t: int|
                    0 <= t < k + 1 && (#[trigger] enemies@[t]).0 == key.0) && melee_hits(
                    *old(world),
                    key.0,
                    attacker_pos,
                    target_pos,
                    range as int,
                ) {
                    match old(world).cmap()[key] {
                        Component::Health(h) => Component::Health(
                            crate::components::Health {
                                current: (if h.current - damage >= 0 {
                                    h.current - damage
                                } else {
                                    0int
                                }) as i32,
                                max: h.max,
                            },
                        ),
                        c => c,
                    }
                } else {
                    old(world).cmap()[key]
                }) by {
                    if key.0 == enemy.0 {
                        assert(enemies@[k as int].0 == key.0);
                    } else {
                        if exists|t: int| 0 <= t < k + 1 && (#[trigger] enemies@[t]).0 == key.0 {
                            let t = choose|t: int|
                                0 <= t < k + 1 && (#[trigger] enemies@[t]).0 == key.0;
                            assert(t < k);
                            assert(exists|t2: int|
                                0 <= t2 < k && (#[trigger] enemies@[t2]).0 == key.0);
                        }
                    }
                }
                assert(hit_any == exists|t: int|
                    0 <= t < k + 1 && melee_hits(
                        *old(world),
                        (#[trigger] enemies@[t]).0,
                        attacker_pos,
                        target_pos,
                        range as int,
                    )) by {
                    if hit_any {
                        if hit_before {
                            let t = choose|t: int|
                                0 <= t < k && melee_hits(
                                    *old(world),
                                    (#[trigger] enemies@[t]).0,
                                    attacker_pos,
                                    target_pos,
                                    range as int,
                                );
                            assert(melee_hits(
                                *old(world),
                                enemies@[t].0,
                                attacker_pos,
                                target_pos,
                                range as int,
                            ));
                        } else {
                            assert(melee_hits(
                                *old(world),
                                enemies@[k as int].0,
                                attacker_pos,
                                target_pos,
                                range as int,
                            ));
                        }
                    } else {
                        if exists|t: int|
                            0 <= t < k + 1 && melee_hits(
                                *old(world),
                                (#[trigger] enemies@[t]).0,
                                attacker_pos,
                                target_pos,
                                range as int,
                            ) {
                            let t = choose|t: int|
                                0 <= t < k + 1 && melee_hits(
                                    *old(world),
                                    (#[trigger] enemies@[t]).0,
                                    attacker_pos,
                                    target_pos,
                                    range as int,
                                );
                            assert(t == k);
                            assert(false);
                        }
                    }
                }
            }
            k = k + 1;
        }
        proof {
            assert forall|key: (u64, ComponentId)| #[trigger]
                old(world).cmap().contains_key(key) && key.1 == ComponentId::Health
                implies world.cmap()[key] == (if old(world).cmap().contains_key(
                (key.0, ComponentId::Enemy),
            ) && melee_hits(*old(world), key.0, attacker_pos, target_pos, range as int) {
                match old(world).cmap()[key] {
                    Component::Health(h) => Component::Health(
                        crate::components::Health {
                            current: (if h.current - damage >= 0 {
                                h.current - damage
                            } else {
                                0int
                            }) as i32,
                            max: h.max,
                        },
                    ),
                    c => c,
                }
            } else {
                old(world).cmap()[key]
            }) by {
                let e = Entity(key.0);
                if old(world).cmap().contains_key((key.0, ComponentId::Enemy)) {
                    assert(old(world).query_spec(ComponentId::Enemy).contains(e));
                    let t = choose|t: int| 0 <= t < enemies@.len() && enemies@[t] == e;
                    assert(enemies@[t].0 == key.0);
                } else {
                    if exists|t: int| 0 <= t < n && (#[trigger] enemies@[t]).0 == key.0 {
                        let t = choose|t: int| 0 <= t < n && (#[trigger] enemies@[t]).0 == key.0;
                        assert(enemies@.contains(enemies@[t]));
                        assert(old(world).cmap().contains_key((enemies@[t].0, ComponentId::Enemy)));
                        assert(false);
                    }
                }
            }
            assert(hit_any == exists|e: Entity|
                old(world).cmap().contains_key((e.0, ComponentId::Enemy))
                    && #[trigger] melee_hits(
                    *old(world),
                    e.0,
                    attacker_pos,
                    target_pos,
                    range as int,
                )) by {
                if hit_any {
                    let t = choose|t: int|
                        0 <= t < n && melee_hits(
                            *old(world),
                            (#[trigger] enemies@[t]).0,
                            attacker_pos,
                            target_pos,
                            range as int,
                        );
                    assert(enemies@.contains(enemies@[t]));
                    assert(old(world).cmap().contains_key((enemies@[t].0, ComponentId::Enemy)));
                } else {
                    if exists|e: Entity|
                        old(world).cmap().contains_key((e.0, ComponentId::Enemy))
                            && #[trigger] melee_hits(
                            *old(world),
                            e.0,
                            attacker_pos,
                            target_pos,
                            range as int,
                        ) {
                        let e = choose|e: Entity|
                            old(world).cmap().contains_key((e.0, ComponentId::Enemy))
                                && #[trigger] melee_hits(
                                *old(world),
                                e.0,
                                attacker_pos,
                                target_pos,
                                range as int,
                            );
                        assert(old(world).query_spec(ComponentId::Enemy).contains(e));
                        let t = choose|t: int| 0 <= t < enemies@.len() && enemies@[t] == e;
                        assert(melee_hits(
                            *old(world),
                            enemies@[t].0,
                            attacker_pos,
                            target_pos,
                            range as int,
                        ));
                        assert(false);
                    }
                }
            }
        }
        hit_any
    }

    /// Whether `ep` lies strictly inside the ninety-degree cone of a melee
    /// sweep from `attacker` toward `target`.
    fn in_melee_cone(attacker: &Position, target: &Position, ep: &Position) -> (r: bool)
        requires
            pos_bounded(*attacker),
            pos_bounded(*target),
            pos_bounded(*ep),
        ensures
            r == ({
                let dir = melee_dir(*attacker, *target);
                let ex = ep.x - attacker.x;
                let ey = ep.y - attacker.y;
                dir.0 * ex + dir.1 * ey > abs_spec(dir.0 * ey - dir.1 * ex)
            }),
    {
        let (dx, dy): (i64, i64) = if target.x == attacker.x && target.y == attacker.y {
            (1000, 0)
        } else {
            (target.x - attacker.x, target.y - attacker.y)
        };
        let ex = (ep.x as i128) - (attacker.x as i128);
        let ey = (ep.y as i128) - (attacker.y as i128);
        proof {
            lemma_combat_products(dx as int, dy as int, ex as int, ey as int, 0);
        }
        let t1 = ex * (dx as i128);
        let t2 = ey * (dy as i128);
        let t3 = ey * (dx as i128);
        let t4 = ex * (dy as i128);
        let dot = t1 + t2;
        let cross = t3 - t4;
        proof {
            assert(dot == (dx as int) * (ex as int) + (dy as int) * (ey as int))
                by (nonlinear_arith)
                requires
                    t1 == (ex as int) * (dx as int),
                    t2 == (ey as int) * (dy as int),
                    dot == t1 + t2,
            ;
            assert(cross == (dx as int) * (ey as int) - (dy as int) * (ex as int))
                by (nonlinear_arith)
                requires
                    t3 == (ey as int) * (dx as int),
                    t4 == (ex as int) * (dy as int),
                    cross == t3 - t4,
            ;
        }
        let cross_abs = if cross >= 0 {
            cross
        } else {
            -cross
        };
        dot > cross_abs
    }

    /// Enemies in the legacy attack state strike the player when close
    /// enough and off cooldown, for ten damage, restarting their cooldown.
    fn process_enemy_attacks(world: &mut World, dt: i64)
        requires
            old(world).wf(),
            old(world).bounded(),
            0 <= dt <= MAX_FRAME_DT,
        ensures
            final (world).wf(),
            final (world).live() == old(world).live(),
            final (world).walls_view() == old(world).walls_view(),
            final (world).next_id() == old(world).next_id(),
            final (world).cmap().dom() == old(world).cmap().dom(),
            forall|key: (u64, ComponentId)| #[trigger]
                old(world).cmap().contains_key(key) && key.1 != ComponentId::Health && key.1
                    != ComponentId::Ai ==> final (world).cmap()[key] == old(world).cmap()[key],
            forall|id: u64| #[trigger]
                old(world).cmap().contains_key((id, ComponentId::Enemy)) && old(
                    world,
                ).cmap().contains_key((id, ComponentId::Ai)) && player_id(*old(world)) != Some(
                    id,
                ) ==> final (world).cmap()[(id, ComponentId::Ai)] == (match old(world).cmap()[(
                    id,
                    ComponentId::Ai,
                )] {
                    Component::Ai(a) => if attack_fires(*old(world), id) {
                        Component::Ai(
                            with_timer_reset(a),
                        )
                    } else {
                        Component::Ai(a)
                    },
                    c => c,
                }),
            forall|key: (u64, ComponentId)| #[trigger]
                old(world).cmap().contains_key(key) && key.1 == ComponentId::Health
                    && player_id(*old(world)) != Some(key.0) ==> final (world).cmap()[key]
                    == old(world).cmap()[key],
            (match player_id(*old(world)) {
                Some(pid) => (match (
                    old(world).lookup(Entity(pid), ComponentId::Position),
                    old(world).lookup(Entity(pid), ComponentId::Health),
                ) {
                    (Some(Component::Position(_)), Some(Component::Health(h0))) => final (world).lookup(
                        Entity(pid),
                        ComponentId::Health,
                    ) == Some(
                        Component::Health(
                            crate::components::Health {
                                current: dmg_fold(
                                    h0.current as int,
                                    fires_count(
                                        *old(world),
                                        old(world).query_spec(ComponentId::Enemy),
                                        pid,
                                    ),
                                ) as i32,
                                max: h0.max,
                            },
                        ),
                    ),
                    _ => true,
                }),
                None => true,
            }),
    {
        let players = world.query(ComponentId::Player);
        if players.len() == 0 {
            return ;
        }
        let player_entity = players[0];
        let player_pos = match world.get_component(player_entity, ComponentId::Position) {
            Some(Component::Position(p)) => p,
            _ => {
                proof {
                    if world.cmap().contains_key((player_entity.0, ComponentId::Position)) {
                        crate::ecs::world::World::lemma_lookup_kind(
                            *world,
                            player_entity,
                            ComponentId::Position,
                        );
                    }
                }
                return ;
            },
        };
        proof {
            crate::ecs::world::World::lemma_lookup_kind(
                *world,
                player_entity,
                ComponentId::Position,
            );
            assert(crate::ecs::component::component_bounded(
                old(world).cmap()[(player_entity.0, ComponentId::Position)],
            ));
        }
        let enemies = world.query(ComponentId::Enemy);
        let n = enemies.len();
        proof {
            crate::ecs::world::lemma_query_exact(*world, ComponentId::Enemy);
        }
        let mut k: usize = 0;
        while k < n
            invariant
                world.wf(),
                old(world).bounded(),
                0 <= dt <= MAX_FRAME_DT,
                pos_bounded(player_pos),
                n == enemies@.len(),
                k <= n,
                enemies@ == old(world).query_spec(ComponentId::Enemy),
                forall|e2: Entity| #[trigger]
                    old(world).query_spec(ComponentId::Enemy).contains(e2) <==> old(
                        world,
                    ).cmap().contains_key((e2.0, ComponentId::Enemy)),
                forall|a: int, b: int| 0 <= a < b < enemies@.len() ==> enemies@[a] != enemies@[b],
                player_id(*old(world)) == Some(player_entity.0),
                player_id(*world) == Some(player_entity.0),
                old(world).lookup(player_entity, ComponentId::Position) == Some(
                    Component::Position(player_pos),
                ),
                world.lookup(player_entity, ComponentId::Position) == Some(
                    Component::Position(player_pos),
                ),
                forall|key: (u64, ComponentId)| #[trigger]
                    old(world).cmap().contains_key(key) && key.1 == ComponentId::Health && key.0
                        != player_entity.0 ==> world.cmap()[key] == old(world).cmap()[key],
                (match old(world).lookup(player_entity, ComponentId::Health) {
                    Some(Component::Health(h0)) => world.lookup(
                        player_entity,
                        ComponentId::Health,
                    ) == Some(
                        Component::Health(
                            crate::components::Health {
                                current: dmg_fold(
                                    h0.current as int,
                                    fires_count(
                                        *old(world),
                                        enemies@.take(k as int),
                                        player_entity.0,
                                    ),
                                ) as i32,
                                max: h0.max,
                            },
                        ),
                    ),
                    _ => !world.cmap().contains_key((player_entity.0, ComponentId::Health))
                        || world.lookup(player_entity, ComponentId::Health) == old(world).lookup(
                        player_entity,
                        ComponentId::Health,
                    ),
                }),
                world.live() == old(world).live(),
                world.walls_view() == old(world).walls_view(),
                world.next_id() == old(world).next_id(),
                world.cmap().dom() == old(world).cmap().dom(),
                forall|key: (u64, ComponentId)| #[trigger]
                    old(world).cmap().contains_key(key) && key.1 != ComponentId::Health && key.1
                        != ComponentId::Ai ==> world.cmap()[key] == old(world).cmap()[key],
                forall|key: (u64, ComponentId)| #[trigger]
                    old(world).cmap().contains_key(key) && key.1 == ComponentId::Ai && !(exists|
                        t: int,
                    |
                        0 <= t < k && (#[trigger] enemies@[t]).0 == key.0)
                        ==> world.cmap()[key] == old(world).cmap()[key],
                forall|id: u64| #[trigger]
                    old(world).cmap().contains_key((id, ComponentId::Enemy)) && old(
                        world,
                    ).cmap().contains_key((id, ComponentId::Ai)) && player_entity.0 != id && (
                    exists|t: int|
                        0 <= t < k && (#[trigger] enemies@[t]).0 == id)
                        ==> world.cmap()[(id, ComponentId::Ai)] == (match old(world).cmap()[(
                        id,
                        ComponentId::Ai,
                    )] {
                        Component::Ai(a) => if attack_fires(*old(world), id) {
                            Component::Ai(with_timer_reset(a))
                        } else {
                            Component::Ai(a)
                        },
                        c => c,
                    }),
            decreases n - k,
        {
            let enemy = enemies[k];
            proof {
                assert(enemies@.contains(enemies@[k as int]));
                if exists|t: int| 0 <= t < k && (#[trigger] enemies@[t]).0 == enemy.0 {
                    let t = choose|t: int| 0 <= t < k && (#[trigger] enemies@[t]).0 == enemy.0;
                    assert(enemies@[t] == enemy);
                    assert(false);
                }
                lemma_dmg_fold_range(
                    (match old(world).lookup(player_entity, ComponentId::Health) {
                        Some(Component::Health(h0)) => h0.current as int,
                        _ => 0int,
                    }),
                    fires_count(*old(world), enemies@.take(k as int), player_entity.0),
                );
            }
            let ghost before_turn = *world;
            if enemy != player_entity {
                Self::attack_player_once(world, enemy, player_entity, player_pos);
            }
            proof {
                assert(enemies@.take(k + 1).drop_last() =~= enemies@.take(k as int));
                assert(enemies@.take(k + 1).last() == enemies@[k as int]);
                if enemy != player_entity {
                    assert(attack_fires(before_turn, enemy.0) == attack_fires(
                        *old(world),
                        enemy.0,
                    ));
                }
                assert forall|id: u64| #[trigger]
                    old(world).cmap().contains_key((id, ComponentId::Enemy)) && old(
                        world,
                    ).cmap().contains_key((id, ComponentId::Ai)) && player_entity.0 != id && (
                    exists|t: int|
                        0 <= t < k + 1 && (#[trigger] enemies@[t]).0 == id) implies world.cmap()[(
                    id,
                    ComponentId::Ai,
                )] == (match old(world).cmap()[(id, ComponentId::Ai)] {
                    Component::Ai(a) => if attack_fires(*old(world), id) {
                        Component::Ai(with_timer_reset(a))
                    } else {
                        Component::Ai(a)
                    },
                    c => c,
                }) by {
                    let t = choose|t: int| 0 <= t < k + 1 && (#[trigger] enemies@[t]).0 == id;
                    if t < k {
                        assert(exists|t2: int| 0 <= t2 < k && (#[trigger] enemies@[t2]).0 == id);
                        assert(enemies@[t] != enemy);
                    } else {
                        assert(enemies@[t] == enemy);
                    }
                }
                assert forall|key: (u64, ComponentId)| #[trigger]
                    old(world).cmap().contains_key(key) && key.1 == ComponentId::Ai && !(exists|
                        t: int,
                    |
                        0 <= t < k + 1 && (#[trigger] enemies@[t]).0 == key.0)
                        implies world.cmap()[key] == old(world).cmap()[key] by {
                    assert(!(exists|t: int| 0 <= t < k && (#[trigger] enemies@[t]).0 == key.0));
                    assert(enemies@[k as int].0 != key.0);
                }
            }
            k = k + 1;
        }
        proof {
            assert(enemies@.take(n as int) =~= enemies@);
            assert forall|id: u64| #[trigger]
                old(world).cmap().contains_key((id, ComponentId::Enemy)) && old(
                    world,
                ).cmap().contains_key((id, ComponentId::Ai)) && player_id(*old(world)) != Some(
                id,
            ) implies world.cmap()[(id, ComponentId::Ai)] == (match old(world).cmap()[(
                id,
                ComponentId::Ai,
            )] {
                Component::Ai(a) => if attack_fires(*old(world), id) {
                    Component::Ai(with_timer_reset(a))
                } else {
                    Component::Ai(a)
                },
                c => c,
            }) by {
                let e2 = Entity(id);
                assert(old(world).query_spec(ComponentId::Enemy).contains(e2));
                let t = choose|t: int| 0 <= t < enemies@.len() && enemies@[t] == e2;
                assert(enemies@[t].0 == id);
            }
        }
    }

    /// Processes one enemy's possible attack on the player: when it fires,
    /// the player takes ten damage and the enemy's cooldown restarts.
    fn attack_player_once(
        world: &mut World,
        enemy: Entity,
        player_entity: Entity,
        player_pos: Position,
    )
        requires
            old(world).wf(),
            pos_bounded(player_pos),
            enemy != player_entity,
            player_id(*old(world)) == Some(player_entity.0),
            old(world).lookup(player_entity, ComponentId::Position) == Some(
                Component::Position(player_pos),
            ),
        ensures
            final (world).wf(),
            final (world).live() == old(world).live(),
            final (world).walls_view() == old(world).walls_view(),
            final (world).next_id() == old(world).next_id(),
            final (world).cmap().dom() == old(world).cmap().dom(),
            forall|key: (u64, ComponentId)| #[trigger]
                old(world).cmap().contains_key(key) && key.1 != ComponentId::Health && key.1
                    != ComponentId::Ai ==> final (world).cmap()[key] == old(world).cmap()[key],
            forall|key: (u64, ComponentId)| #[trigger]
                old(world).cmap().contains_key(key) && key.1 == ComponentId::Ai && key.0
                    != enemy.0 ==> final (world).cmap()[key] == old(world).cmap()[key],
            forall|key: (u64, ComponentId)| #[trigger]
                old(world).cmap().contains_key(key) && key.1 == ComponentId::Health && key.0
                    != player_entity.0 ==> final (world).cmap()[key] == old(world).cmap()[key],
            final (world).query_spec(ComponentId::Player) == old(world).query_spec(
                ComponentId::Player,
            ),
            final (world).lookup(player_entity, ComponentId::Health) == (match (
                attack_fires(*old(world), enemy.0),
                old(world).lookup(player_entity, ComponentId::Health),
            ) {
                (true, Some(Component::Health(h))) => Some(
                    Component::Health(
                        crate::components::Health {
                            current: (if h.current - 10 >= 0 {
                                h.current - 10
                            } else {
                                0int
                            }) as i32,
                            max: h.max,
                        },
                    ),
                ),
                (_, other) => other,
            }),
            old(world).cmap().contains_key((enemy.0, ComponentId::Ai)) ==> final (world).cmap()[(
                enemy.0,
                ComponentId::Ai,
            )] == (match old(world).cmap()[(enemy.0, ComponentId::Ai)] {
                Component::Ai(a) => if attack_fires(*old(world), enemy.0) {
                    Component::Ai(with_timer_reset(a))
                } else {
                    Component::Ai(a)
                },
                c => c,
            }),
    {
        let ai_c = world.get_component(enemy, ComponentId::Ai);
        let ep_c = world.get_component(enemy, ComponentId::Position);
        let eh_c = world.get_component(enemy, ComponentId::Health);
        match (ai_c, ep_c, eh_c) {
            (
                Some(Component::Ai(ai)),
                Some(Component::Position(ep)),
                Some(Component::Health(eh)),
            ) => {
                let ai_ok = ai.attack_range >= 0 && ai.attack_range
                    <= crate::components::POS_LIMIT && pos_ok(&ep);
                let fires = if eh.is_alive() && ai_ok && matches!(ai.state, AIState::Attack)
                    && ai.can_attack() {
                    let d2 = ep.distance_sq_to(&player_pos);
                    proof {
                        assert(0 <= (ai.attack_range as int) * (ai.attack_range as int)
                            <= 10000000000000000) by (nonlinear_arith)
                            requires
                                0 <= ai.attack_range as int <= 100000000,
                        ;
                    }
                    d2 < (ai.attack_range as i128) * (ai.attack_range as i128)
                } else {
                    false
                };
                proof {
                    assert(fires == attack_fires(*old(world), enemy.0));
                }
                if fires {
                    match world.get_component(player_entity, ComponentId::Health) {
                        Some(Component::Health(ph)) => {
                            let mut ph = ph;
                            ph.take_damage(10);
                            world.add_component(player_entity, Component::Health(ph));
                            proof {
                                assert(world.cmap().dom() =~= old(world).cmap().dom());
                            }
                        },
                        _ => {
                            proof {
                                if world.cmap().contains_key(
                                    (player_entity.0, ComponentId::Health),
                                ) {
                                    crate::ecs::world::World::lemma_lookup_kind(
                                        *world,
                                        player_entity,
                                        ComponentId::Health,
                                    );
                                }
                            }
                        },
                    }
                    let mut ai = ai;
                    ai.reset_attack_timer();
                    world.add_component(enemy, Component::Ai(ai));
                    proof {
                        assert(world.cmap().dom() =~= old(world).cmap().dom());
                    }
                }
            },
            _ => {
                proof {
                    if world.cmap().contains_key((enemy.0, ComponentId::Ai)) {
                        crate::ecs::world::World::lemma_lookup_kind(*world, enemy, ComponentId::Ai);
                    }
                    if world.cmap().contains_key((enemy.0, ComponentId::Position)) {
                        crate::ecs::world::World::lemma_lookup_kind(
                            *world,
                            enemy,
                            ComponentId::Position,
                        );
                    }
                    if world.cmap().contains_key((enemy.0, ComponentId::Health)) {
                        crate::ecs::world::World::lemma_lookup_kind(
                            *world,
                            enemy,
                            ComponentId::Health,
                        );
                    }
                }
            },
        }
    }

    /// Runs the per-frame combat resolution: enemy attacks on the player.
    pub fn run(&mut self, world: &mut World, dt: i64)
        requires
            old(world).wf(),
            old(world).bounded(),
            0 <= dt <= MAX_FRAME_DT,
        ensures
            final (world).wf(),
            final (world).live() == old(world).live(),
            final (world).walls_view() == old(world).walls_view(),
            final (world).next_id() == old(world).next_id(),
            final (world).cmap().dom() == old(world).cmap().dom(),
            forall|key: (u64, ComponentId)| #[trigger]
                old(world).cmap().contains_key(key) && key.1 != ComponentId::Health && key.1
                    != ComponentId::Ai ==> final (world).cmap()[key] == old(world).cmap()[key],
            forall|id: u64| #[trigger]
                old(world).cmap().contains_key((id, ComponentId::Enemy)) && old(
                    world,
                ).cmap().contains_key((id, ComponentId::Ai)) && player_id(*old(world)) != Some(
                    id,
                ) ==> final (world).cmap()[(id, ComponentId::Ai)] == (match old(world).cmap()[(
                    id,
                    ComponentId::Ai,
                )] {
                    Component::Ai(a) => if attack_fires(*old(world), id) {
                        Component::Ai(with_timer_reset(a))
                    } else {
                        Component::Ai(a)
                    },
                    c => c,
                }),
            forall|key: (u64, ComponentId)| #[trigger]
                old(world).cmap().contains_key(key) && key.1 == ComponentId::Health
                    && player_id(*old(world)) != Some(key.0) ==> final (world).cmap()[key]
                    == old(world).cmap()[key],
            (match player_id(*old(world)) {
                Some(pid) => (match (
                    old(world).lookup(Entity(pid), ComponentId::Position),
                    old(world).lookup(Entity(pid), ComponentId::Health),
                ) {
                    (Some(Component::Position(_)), Some(Component::Health(h0))) => final (world).lookup(
                        Entity(pid),
                        ComponentId::Health,
                    ) == Some(
                        Component::Health(
                            crate::components::Health {
                                current: dmg_fold(
                                    h0.current as int,
                                    fires_count(
                                        *old(world),
                                        old(world).query_spec(ComponentId::Enemy),
                                        pid,
                                    ),
                                ) as i32,
                                max: h0.max,
                            },
                        ),
                    ),
                    _ => true,
                }),
                None => true,
            }),
    {
        Self::process_enemy_attacks(world, dt);
    }
}

impl System for CombatSystem {
    fn run(&mut self, world: &mut World, dt: i64) {
        CombatSystem::run(self, world, dt);
    }
}

/// Whether both coordinates are within the position bound.
fn pos_ok(p: &Position) -> (r: bool)
    ensures
        r == pos_bounded(*p),
{
    p.x >= -crate::components::POS_LIMIT && p.x <= crate::components::POS_LIMIT && p.y
        >= -crate::components::POS_LIMIT && p.y <= crate::components::POS_LIMIT
}

} // verus!
