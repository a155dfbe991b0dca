//! System that advances weapon cooldown timers.

use crate::components::{weapon_bounded, Weapon};
use crate::ecs::component::{Component, ComponentId};
use crate::ecs::entity::Entity;
use crate::ecs::system::{System, MAX_FRAME_DT};
use crate::ecs::world::{same_except_kinds, World};
use vstd::prelude::*;

verus! {

/// One frame of cooldown decay for a weapon.
pub open spec fn weapon_step(w: Weapon, dt: int) -> Weapon {
    if w.fire_timer > 0 {
        Weapon {
            fire_timer: if w.fire_timer - dt >= crate::num::TIMER_FLOOR {
                w.fire_timer - dt
            } else {
                crate::num::TIMER_FLOOR as int
            } as i64,
            ..w
        }
    } else {
        w
    }
}

/// System that updates weapon timers.
pub struct WeaponUpdateSystem;

impl WeaponUpdateSystem {
    /// Advances every weapon's cooldown by `dt`; nothing else changes.
    pub fn run(&mut self, world: &mut World, dt: i64)
        requires
            old(world).wf(),
            old(world).bounded(),
            0 <= dt <= MAX_FRAME_DT,
        ensures
            final (world).wf(),
            final (world).live() == old(world).live(),
            final (world).walls_view() == old(world).walls_view(),
            final (world).next_id() == old(world).next_id(),
            same_except_kinds(
                old(world).cmap(),
                final (world).cmap(),
                set![ComponentId::Weapon],
            ),
            forall|key: (u64, ComponentId)| #[trigger]
                old(world).cmap().contains_key(key) && key.1 == ComponentId::Weapon
                    ==> final (world).cmap()[key] == (match old(world).cmap()[key] {
                    Component::Weapon(w) => Component::Weapon(weapon_step(w, dt as int)),
                    c => c,
                }),
    {
        let ents = world.query(ComponentId::Weapon);
        let n = ents.len();
        proof {
            crate::ecs::world::lemma_query_exact(*world, ComponentId::Weapon);
        }
        let mut k: usize = 0;
        while k < n
            invariant
                world.wf(),
                0 <= dt <= MAX_FRAME_DT,
                n == ents@.len(),
                k <= n,
                ents@ == old(world).query_spec(ComponentId::Weapon),
                forall|e: Entity| #[trigger]
                    old(world).query_spec(ComponentId::Weapon).contains(e) <==> old(
                        world,
                    ).cmap().contains_key((e.0, ComponentId::Weapon)),
                forall|a: int, b: int| 0 <= a < b < ents@.len() ==> ents@[a] != ents@[b],
                world.live() == old(world).live(),
                world.walls_view() == old(world).walls_view(),
                world.next_id() == old(world).next_id(),
                world.cmap().dom() == old(world).cmap().dom(),
                forall|key: (u64, ComponentId)| #[trigger]
                    old(world).cmap().contains_key(key) && key.1 != ComponentId::Weapon
                        ==> world.cmap()[key] == old(world).cmap()[key],
                old(world).bounded(),
                forall|key: (u64, ComponentId)| #[trigger]
                    old(world).cmap().contains_key(key) && key.1 == ComponentId::Weapon
                        ==> world.cmap()[key] == if exists|t: int|
                        0 <= t < k && (#[trigger] ents@[t]).0 == key.0 {
                        match old(world).cmap()[key] {
                            Component::Weapon(w) => Component::Weapon(weapon_step(w, dt as int)),
                            c => c,
                        }
                    } else {
                        old(world).cmap()[key]
                    },
            decreases n - k,
        {
            let e = ents[k];
            proof {
                assert(ents@.contains(ents@[k as int]));
            }
            match world.get_component(e, ComponentId::Weapon) {
                Some(c) => {
                    match c.as_weapon() {
                        Some(w) => {
                            let mut w = w;
                            proof {
                                let key = (e.0, ComponentId::Weapon);
                                assert(old(world).cmap().contains_key(key));
                                assert(crate::ecs::component::component_bounded(
                                    old(world).cmap()[key],
                                ));
                                if exists|t: int| 0 <= t < k && (#[trigger] ents@[t]).0 == e.0 {
                                    let t = choose|t: int|
                                        0 <= t < k && (#[trigger] ents@[t]).0 == e.0;
                                    assert(ents@[t] == e);
                                    assert(false);
                                }
                            }
                            w.update(dt);
                            world.add_component(e, Component::Weapon(w));
                            proof {
                                let ghost key = (e.0, ComponentId::Weapon);
                                assert(world.cmap().dom() =~= old(world).cmap().dom());
                                assert forall|key2: (u64, ComponentId)| #[trigger]
                                    old(world).cmap().contains_key(key2) && key2.1
                                        == ComponentId::Weapon implies world.cmap()[key2]
                                    == if exists|t: int|
                                    0 <= t < k + 1 && (#[trigger] ents@[t]).0 == key2.0 {
                                    match old(world).cmap()[key2] {
                                        Component::Weapon(w2) => Component::Weapon(
                                            weapon_step(w2, dt as int),
                                        ),
                                        c2 => c2,
                                    }
                                } else {
                                    old(world).cmap()[key2]
                                } by {
                                    if key2.0 == e.0 {
                                        assert(ents@[k as int].0 == key2.0);
                                    } else {
                                        if exists|t: int|
                                            0 <= t < k + 1 && (#[trigger] ents@[t]).0 == key2.0 {
                                            let t = choose|t: int|
                                                0 <= t < k + 1 && (#[trigger] ents@[t]).0
                                                    == key2.0;
                                            assert(t < k);
                                            assert(exists|t2: int|
                                                0 <= t2 < k && (#[trigger] ents@[t2]).0
                                                    == key2.0);
                                        }
                                    }
                                }
                            }
                        },
                        None => {
                            proof {
                                crate::ecs::world::World::lemma_lookup_kind(
                                    *world,
                                    e,
                                    ComponentId::Weapon,
                                );
                                assert(false);
                            }
                        },
                    }
                },
                None => {
                    proof {
                        crate::ecs::world::World::lemma_query_entity_has_component(
                            *old(world),
                            ComponentId::Weapon,
                            k as int,
                        );
                        assert(false);
                    }
                },
            }
            k = k + 1;
        }
        proof {
            assert forall|key: (u64, ComponentId)| #[trigger]
                old(world).cmap().contains_key(key) && key.1 == ComponentId::Weapon
                implies world.cmap()[key] == (match old(world).cmap()[key] {
                Component::Weapon(w) => Component::Weapon(weapon_step(w, dt as int)),
                c => c,
            }) by {
                let e = Entity(key.0);
                assert(old(world).query_spec(ComponentId::Weapon).contains(e));
                let t = choose|t: int|
                    0 <= t < ents@.len() && ents@[t] == e;
                assert(ents@[t].0 == key.0);
            }
        }
    }
}

impl System for WeaponUpdateSystem {
    fn run(&mut self, world: &mut World, dt: i64) {
        WeaponUpdateSystem::run(self, world, dt);
    }
}

} // verus!
