//! Snapshot-based queries over the world.
//!
//! A read query snapshots the matching entities once and pairs each with a
//! copy of its component; entities that lose the component between snapshot
//! and use are simply skipped. A mutable query snapshots only the entity
//! list, and callers re-acquire access through the world per step, so no
//! two live mutable borrows of one component can ever exist.

use super::component::{Component, ComponentId};
use super::entity::Entity;
use super::world::World;
use vstd::prelude::*;

verus! {

/// A read-only snapshot of the entities holding one component kind, with
/// their component values.
pub struct Query {
    items: Vec<(Entity, Component)>,
}

impl Query {
    /// The snapshot contents.
    pub closed spec fn items_view(self) -> Seq<(Entity, Component)> {
        self.items@
    }

    /// Snapshots every entity holding a component of kind `kind`, paired
    /// with that component, in query order.
    pub fn new(world: &World, kind: ComponentId) -> (r: Query)
        requires
            world.wf(),
        ensures
            r.items_view().len() == world.query_spec(kind).len(),
            forall|k: int|
                0 <= k < r.items_view().len() ==> {
                    &&& (#[trigger] r.items_view()[k]).0 == world.query_spec(kind)[k]
                    &&& world.lookup(r.items_view()[k].0, kind) == Some(r.items_view()[k].1)
                },
    {
        let ents = world.query(kind);
        let n = ents.len();
        let mut items: Vec<(Entity, Component)> = Vec::new();
        let mut k: usize = 0;
        while k < n
            invariant
                world.wf(),
                n == ents@.len(),
                k <= n,
                ents@ == world.query_spec(kind),
                items@.len() == k,
                forall|t: int|
                    0 <= t < k ==> {
                        &&& (#[trigger] items@[t]).0 == world.query_spec(kind)[t]
                        &&& world.lookup(items@[t].0, kind) == Some(items@[t].1)
                    },
            decreases n - k,
        {
            let e = ents[k];
            match world.get_component(e, kind) {
                Some(c) => {
                    items.push((e, c));
                },
                None => {
                    proof {
                        crate::ecs::world::World::lemma_query_entity_has_component(
                            *world,
                            kind,
                            k as int,
                        );
                    }
                },
            }
            k = k + 1;
        }
        Query { items }
    }

    /// The snapshot as a list of entity and component pairs.
    pub fn iter(&self) -> (r: &Vec<(Entity, Component)>)
        ensures
            r@ == self.items_view(),
    {
        &self.items
    }

    pub fn len(&self) -> (r: usize)
        ensures
            r == self.items_view().len(),
    {
        self.items.len()
    }

    /// The pair at position `k` of the snapshot.
    pub fn get(&self, k: usize) -> (r: Option<(Entity, Component)>)
        ensures
            r == if k < self.items_view().len() {
                Some(self.items_view()[k as int])
            } else {
                None::<(Entity, Component)>
            },
    {
        if k < self.items.len() {
            Some(self.items[k])
        } else {
            None
        }
    }
}

/// A mutable query: a snapshot of the entities holding one component kind.
/// Mutation happens one entity at a time through the world, which rules out
/// aliased access by construction.
pub struct QueryMut {
    entities: Vec<Entity>,
}

impl QueryMut {
    /// The snapshotted entities.
    pub closed spec fn ents_view(self) -> Seq<Entity> {
        self.entities@
    }

    /// Snapshots the entities holding a component of kind `kind`.
    pub fn new(world: &World, kind: ComponentId) -> (r: QueryMut)
        requires
            world.wf(),
        ensures
            r.ents_view() == world.query_spec(kind),
    {
        QueryMut { entities: world.query(kind) }
    }

    /// The snapshotted entity list.
    pub fn entities(&self) -> (r: &Vec<Entity>)
        ensures
            r@ == self.ents_view(),
    {
        &self.entities
    }

    pub fn len(&self) -> (r: usize)
        ensures
            r == self.ents_view().len(),
    {
        self.entities.len()
    }
}

} // verus!
