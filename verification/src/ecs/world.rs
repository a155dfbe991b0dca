//! The world: entity registry, component store and static wall list.
//!
//! Components are held in an association list keyed by entity id and
//! component kind; its mathematical view is the map `cmap`.

use super::component::{Component, ComponentId};
use super::entity::Entity;
use vstd::map::*;
use vstd::prelude::*;

verus! {

/// An axis-aligned rectangular obstacle, in milli-units.
#[derive(Debug, Clone, Copy, PartialEq, Eq, Structural)]
pub struct Wall {
    pub x: i64,
    pub y: i64,
    pub width: i64,
    pub height: i64,
}

impl Wall {
    pub fn new(x: i64, y: i64, width: i64, height: i64) -> (r: Wall)
        ensures
            r == (Wall { x, y, width, height }),
    {
        Wall { x, y, width, height }
    }
}

/// The key a stored pair is filed under: entity id and component kind.
pub open spec fn key_of(p: (Entity, Component)) -> (u64, ComponentId) {
    (p.0.0, p.1.kind_spec())
}

/// The map described by an association list; later entries would win, but a
/// well-formed store never holds two entries with one key.
pub open spec fn assoc_map(s: Seq<(Entity, Component)>) -> Map<(u64, ComponentId), Component>
    decreases s.len(),
{
    if s.len() == 0 {
        Map::empty()
    } else {
        assoc_map(s.drop_last()).insert(key_of(s.last()), s.last().1)
    }
}

/// The entities of the entries of kind `k`, in store order.
pub open spec fn ents_with(s: Seq<(Entity, Component)>, k: ComponentId) -> Seq<Entity>
    decreases s.len(),
{
    if s.len() == 0 {
        Seq::empty()
    } else if s.last().1.kind_spec() == k {
        ents_with(s.drop_last(), k).push(s.last().0)
    } else {
        ents_with(s.drop_last(), k)
    }
}

/// The entries whose entity differs from `e`.
pub open spec fn entries_without(s: Seq<(Entity, Component)>, e: Entity) -> Seq<
    (Entity, Component),
>
    decreases s.len(),
{
    if s.len() == 0 {
        Seq::empty()
    } else if s.last().0 == e {
        entries_without(s.drop_last(), e)
    } else {
        entries_without(s.drop_last(), e).push(s.last())
    }
}

/// The entities other than `e`, in order.
pub open spec fn ents_without(s: Seq<Entity>, e: Entity) -> Seq<Entity>
    decreases s.len(),
{
    if s.len() == 0 {
        Seq::empty()
    } else if s.last() == e {
        ents_without(s.drop_last(), e)
    } else {
        ents_without(s.drop_last(), e).push(s.last())
    }
}

/// All keys belonging to entity id `id`.
pub open spec fn keys_of_entity(id: u64) -> Set<(u64, ComponentId)> {
    Set::new(|k: (u64, ComponentId)| k.0 == id)
}

/// Of `s`, the entities that the map `m` gives a component of kind `k`.
pub open spec fn having(
    s: Seq<Entity>,
    m: Map<(u64, ComponentId), Component>,
    k: ComponentId,
) -> Seq<Entity>
    decreases s.len(),
{
    if s.len() == 0 {
        Seq::empty()
    } else if m.contains_key((s.last().0, k)) {
        having(s.drop_last(), m, k).push(s.last())
    } else {
        having(s.drop_last(), m, k)
    }
}

/// Of `s`, the entities that the map `m` gives components of both kinds.
pub open spec fn having2(
    s: Seq<Entity>,
    m: Map<(u64, ComponentId), Component>,
    k2: ComponentId,
    k3: ComponentId,
) -> Seq<Entity>
    decreases s.len(),
{
    if s.len() == 0 {
        Seq::empty()
    } else if m.contains_key((s.last().0, k2)) && m.contains_key((s.last().0, k3)) {
        having2(s.drop_last(), m, k2, k3).push(s.last())
    } else {
        having2(s.drop_last(), m, k2, k3)
    }
}

/// No two entries of the store share a key.
pub open spec fn distinct_keys(s: Seq<(Entity, Component)>) -> bool {
    forall|i: int, j: int| 0 <= i < j < s.len() ==> key_of(s[i]) != key_of(s[j])
}

proof fn lemma_assoc_contains(s: Seq<(Entity, Component)>, key: (u64, ComponentId))
    ensures
        assoc_map(s).contains_key(key) <==> exists|i: int|
            0 <= i < s.len() && key_of(#[trigger] s[i]) == key,
    decreases s.len(),
{
    if s.len() > 0 {
        lemma_assoc_contains(s.drop_last(), key);
        if key_of(s.last()) == key {
            assert(key_of(s[s.len() - 1]) == key);
        } else if assoc_map(s).contains_key(key) {
            let i = choose|i: int|
                0 <= i < s.drop_last().len() && key_of(#[trigger] s.drop_last()[i]) == key;
            assert(key_of(s[i]) == key);
        } else {
            if exists|i: int| 0 <= i < s.len() && key_of(#[trigger] s[i]) == key {
                let i = choose|i: int| 0 <= i < s.len() && key_of(#[trigger] s[i]) == key;
                assert(i < s.len() - 1);
                assert(key_of(s.drop_last()[i]) == key);
            }
        }
    }
}

proof fn lemma_assoc_at(s: Seq<(Entity, Component)>, i: int)
    requires
        distinct_keys(s),
        0 <= i < s.len(),
    ensures
        assoc_map(s).contains_key(key_of(s[i])),
        assoc_map(s)[key_of(s[i])] == s[i].1,
    decreases s.len(),
{
    if i == s.len() - 1 {
    } else {
        assert(distinct_keys(s.drop_last())) by {
            assert(forall|a: int, b: int|
                0 <= a < b < s.drop_last().len() ==> key_of(#[trigger] s.drop_last()[a])
                    != key_of(#[trigger] s.drop_last()[b]));
        }
        lemma_assoc_at(s.drop_last(), i);
        assert(key_of(s[i]) != key_of(s.last()));
        assert(s.drop_last()[i] == s[i]);
    }
}

proof fn lemma_distinct_drop_last(s: Seq<(Entity, Component)>)
    requires
        distinct_keys(s),
        s.len() > 0,
    ensures
        distinct_keys(s.drop_last()),
{
    assert(forall|a: int, b: int|
        0 <= a < b < s.drop_last().len() ==> key_of(#[trigger] s.drop_last()[a]) != key_of(
            #[trigger] s.drop_last()[b],
        ));
}

/// Updating the entry at `i` with a pair of the same key rewrites exactly
/// that key in the map.
proof fn lemma_assoc_update(s: Seq<(Entity, Component)>, i: int, p: (Entity, Component))
    requires
        distinct_keys(s),
        0 <= i < s.len(),
    ensures
        key_of(p) == key_of(s[i]) ==> assoc_map(s.update(i, p)) == assoc_map(s).insert(
            key_of(p),
            p.1,
        ),
        key_of(p) == key_of(s[i]) ==> distinct_keys(s.update(i, p)),
    decreases s.len(),
{
    if key_of(p) == key_of(s[i]) {
        assert(distinct_keys(s.update(i, p))) by {
            assert(forall|a: int|
                0 <= a < s.len() ==> key_of(#[trigger] s.update(i, p)[a]) == key_of(s[a]));
        }
        if i == s.len() - 1 {
            assert(s.update(i, p).drop_last() =~= s.drop_last());
            assert(s.update(i, p).last() == p);
            assert(assoc_map(s.update(i, p)) == assoc_map(s.drop_last()).insert(key_of(p), p.1));
            assert(assoc_map(s).insert(key_of(p), p.1) =~= assoc_map(s.drop_last()).insert(
                key_of(s.last()),
                s.last().1,
            ).insert(key_of(p), p.1));
            assert(assoc_map(s.drop_last()).insert(key_of(p), p.1) =~= assoc_map(
                s.drop_last(),
            ).insert(key_of(s.last()), s.last().1).insert(key_of(p), p.1));
        } else {
            lemma_distinct_drop_last(s);
            lemma_assoc_update(s.drop_last(), i, p);
            assert(s.update(i, p).drop_last() =~= s.drop_last().update(i, p));
            assert(s.update(i, p).last() == s.last());
            assert(s.drop_last()[i] == s[i]);
            assert(assoc_map(s.update(i, p)) == assoc_map(s.drop_last().update(i, p)).insert(
                key_of(s.last()),
                s.last().1,
            ));
            assert(assoc_map(s.drop_last().update(i, p)) == assoc_map(s.drop_last()).insert(
                key_of(p),
                p.1,
            ));
            assert(key_of(p) != key_of(s.last()));
            assert(assoc_map(s.drop_last()).insert(key_of(p), p.1).insert(
                key_of(s.last()),
                s.last().1,
            ) =~= assoc_map(s.drop_last()).insert(key_of(s.last()), s.last().1).insert(
                key_of(p),
                p.1,
            ));
        }
    }
}

/// Removing the entry at `i` removes exactly its key from the map.
proof fn lemma_assoc_remove(s: Seq<(Entity, Component)>, i: int)
    requires
        distinct_keys(s),
        0 <= i < s.len(),
    ensures
        assoc_map(s.remove(i)) == assoc_map(s).remove(key_of(s[i])),
        distinct_keys(s.remove(i)),
    decreases s.len(),
{
    assert(distinct_keys(s.remove(i))) by {
        assert(forall|a: int|
            0 <= a < s.remove(i).len() ==> key_of(#[trigger] s.remove(i)[a]) == if a < i {
                key_of(s[a])
            } else {
                key_of(s[a + 1])
            });
    }
    lemma_distinct_drop_last(s);
    if i == s.len() - 1 {
        assert(s.remove(i) =~= s.drop_last());
        lemma_assoc_contains(s.drop_last(), key_of(s[i]));
        assert(!assoc_map(s.drop_last()).contains_key(key_of(s[i]))) by {
            if exists|a: int|
                0 <= a < s.drop_last().len() && key_of(#[trigger] s.drop_last()[a]) == key_of(
                    s[i],
                ) {
                let a = choose|a: int|
                    0 <= a < s.drop_last().len() && key_of(#[trigger] s.drop_last()[a]) == key_of(
                        s[i],
                    );
                assert(key_of(s[a]) == key_of(s[i]));
            }
        }
        assert(assoc_map(s.drop_last()) =~= assoc_map(s).remove(key_of(s[i])));
    } else {
        lemma_assoc_remove(s.drop_last(), i);
        assert(s.remove(i).drop_last() =~= s.drop_last().remove(i));
        assert(s.remove(i).last() == s.last());
        assert(s.remove(i).len() > 0);
        assert(assoc_map(s.remove(i)) == assoc_map(s.drop_last().remove(i)).insert(
            key_of(s.last()),
            s.last().1,
        ));
        assert(s.drop_last()[i] == s[i]);
        assert(key_of(s[i]) != key_of(s.last()));
        assert(assoc_map(s.drop_last()).remove(key_of(s[i])).insert(key_of(s.last()), s.last().1)
            =~= assoc_map(s.drop_last()).insert(key_of(s.last()), s.last().1).remove(
            key_of(s[i]),
        ));
    }
}

/// Every entry of `entries_without(s, e)` comes from `s`.
proof fn lemma_entries_without_from(s: Seq<(Entity, Component)>, e: Entity)
    ensures
        forall|a: int|
            0 <= a < entries_without(s, e).len() ==> exists|b: int|
                0 <= b < s.len() && #[trigger] entries_without(s, e)[a] == s[b],
        forall|a: int| 0 <= a < entries_without(s, e).len() ==> entries_without(s, e)[a].0 != e,
    decreases s.len(),
{
    if s.len() > 0 {
        lemma_entries_without_from(s.drop_last(), e);
        let r = entries_without(s, e);
        let rd = entries_without(s.drop_last(), e);
        assert(forall|a: int|
            0 <= a < rd.len() ==> exists|b: int|
                0 <= b < s.len() && #[trigger] rd[a] == s[b]) by {
            assert(forall|b: int| 0 <= b < s.drop_last().len() ==> s.drop_last()[b] == s[b]);
            assert(forall|a: int|
                0 <= a < rd.len() ==> exists|b: int|
                    0 <= b < s.drop_last().len() && #[trigger] rd[a] == s.drop_last()[b]);
            assert forall|a: int| 0 <= a < rd.len() implies exists|b: int|
                0 <= b < s.len() && #[trigger] rd[a] == s[b] by {
                let b = choose|b: int| 0 <= b < s.drop_last().len() && rd[a] == s.drop_last()[b];
                assert(rd[a] == s[b]);
            }
        }
        if s.last().0 != e {
            assert(r == rd.push(s.last()));
            assert forall|a: int| 0 <= a < r.len() implies exists|b: int|
                0 <= b < s.len() && #[trigger] r[a] == s[b] by {
                if a < rd.len() {
                    assert(r[a] == rd[a]);
                    let b = choose|b: int| 0 <= b < s.len() && rd[a] == s[b];
                    assert(r[a] == s[b]);
                } else {
                    assert(r[a] == s[s.len() - 1]);
                }
            }
        }
    }
}

/// Dropping every entry of entity `e` removes exactly `e`'s keys from the
/// map, and keeps the remaining keys distinct.
proof fn lemma_entries_without_map(s: Seq<(Entity, Component)>, e: Entity)
    requires
        distinct_keys(s),
    ensures
        assoc_map(entries_without(s, e)) == assoc_map(s).remove_keys(keys_of_entity(e.0)),
        distinct_keys(entries_without(s, e)),
    decreases s.len(),
{
    if s.len() == 0 {
        assert(assoc_map(entries_without(s, e)) =~= assoc_map(s).remove_keys(
            keys_of_entity(e.0),
        ));
    } else {
        lemma_distinct_drop_last(s);
        lemma_entries_without_map(s.drop_last(), e);
        let p = s.last();
        if p.0 == e {
            assert(entries_without(s, e) == entries_without(s.drop_last(), e));
            assert(keys_of_entity(e.0).contains(key_of(p)));
            assert(assoc_map(s.drop_last()).remove_keys(keys_of_entity(e.0)) =~= assoc_map(
                s.drop_last(),
            ).insert(key_of(p), p.1).remove_keys(keys_of_entity(e.0)));
        } else {
            assert(entries_without(s, e) == entries_without(s.drop_last(), e).push(p));
            assert(entries_without(s, e).drop_last() =~= entries_without(s.drop_last(), e));
            assert(assoc_map(entries_without(s, e)) == assoc_map(
                entries_without(s.drop_last(), e),
            ).insert(key_of(p), p.1));
            assert(!keys_of_entity(e.0).contains(key_of(p)));
            assert(assoc_map(s.drop_last()).remove_keys(keys_of_entity(e.0)).insert(
                key_of(p),
                p.1,
            ) =~= assoc_map(s.drop_last()).insert(key_of(p), p.1).remove_keys(
                keys_of_entity(e.0),
            ));
            // Distinctness: the new last entry comes from s, whose keys are
            // distinct from key_of(p) wherever the index differs.
            lemma_entries_without_from(s.drop_last(), e);
            let r = entries_without(s, e);
            let rd = entries_without(s.drop_last(), e);
            assert forall|a: int, b: int| 0 <= a < b < r.len() implies key_of(r[a]) != key_of(
                r[b],
            ) by {
                if b < rd.len() {
                    assert(r[a] == rd[a] && r[b] == rd[b]);
                } else {
                    assert(r[b] == p);
                    assert(r[a] == rd[a]);
                    let c = choose|c: int| 0 <= c < s.drop_last().len() && rd[a] == s.drop_last()[c];
                    assert(s.drop_last()[c] == s[c]);
                    assert(key_of(s[c]) != key_of(s[s.len() - 1]));
                }
            }
        }
    }
}

/// Dropping an entity's entries leaves every kind's entity list unchanged
/// when the entity held no entry of that kind.
proof fn lemma_entries_without_ents_with(s: Seq<(Entity, Component)>, e: Entity, k: ComponentId)
    requires
        forall|i: int| 0 <= i < s.len() ==> !(key_of(#[trigger] s[i]) == (e.0, k)),
    ensures
        ents_with(entries_without(s, e), k) == ents_with(s, k),
    decreases s.len(),
{
    if s.len() > 0 {
        assert(forall|i: int|
            0 <= i < s.drop_last().len() ==> !(key_of(#[trigger] s.drop_last()[i]) == (e.0, k)));
        lemma_entries_without_ents_with(s.drop_last(), e, k);
        let p = s.last();
        if p.0 == e {
            assert(key_of(s[s.len() - 1]) != (e.0, k));
            assert(p.1.kind_spec() != k);
        } else {
            assert(entries_without(s, e) == entries_without(s.drop_last(), e).push(p));
            assert(entries_without(s, e).drop_last() =~= entries_without(s.drop_last(), e));
        }
    }
}

/// Every entity of `ents_without(s, e)` comes from `s` and differs from `e`.
proof fn lemma_ents_without(s: Seq<Entity>, e: Entity)
    ensures
        forall|x: Entity| #[trigger]
            ents_without(s, e).contains(x) <==> (s.contains(x) && x != e),
    decreases s.len(),
{
    if s.len() > 0 {
        lemma_ents_without(s.drop_last(), e);
        let r = ents_without(s, e);
        let rd = ents_without(s.drop_last(), e);
        assert forall|x: Entity| #[trigger] r.contains(x) implies (s.contains(x) && x != e) by {
            let a = choose|a: int| 0 <= a < r.len() && r[a] == x;
            if s.last() != e && a == r.len() - 1 {
                assert(s[s.len() - 1] == r[a]);
            } else {
                assert(rd.contains(x));
                let b = choose|b: int| 0 <= b < rd.len() && rd[b] == x;
                assert(s.drop_last().contains(x));
                let c = choose|c: int| 0 <= c < s.drop_last().len() && s.drop_last()[c] == x;
                assert(s[c] == x);
            }
        }
        assert forall|x: Entity| (s.contains(x) && x != e) implies #[trigger] r.contains(x) by {
            let a = choose|a: int| 0 <= a < s.len() && s[a] == x;
            if a == s.len() - 1 {
                assert(r[r.len() - 1] == x);
            } else {
                assert(s.drop_last()[a] == x);
                assert(s.drop_last().contains(x));
                assert(rd.contains(x));
                let b = choose|b: int| 0 <= b < rd.len() && rd[b] == x;
                if s.last() == e {
                    assert(r[b] == x);
                } else {
                    assert(r[b] == x);
                }
            }
        }
    }
}

/// The world owns the entity registry, the component store and the wall
/// list.
pub struct World {
    next_entity_id: u64,
    entities: Vec<Entity>,
    comps: Vec<(Entity, Component)>,
    walls: Vec<Wall>,
}

impl World {
    /// The id the next spawned entity will get.
    pub closed spec fn next_id(self) -> u64 {
        self.next_entity_id
    }

    /// The live entities, in spawn order.
    pub closed spec fn live(self) -> Seq<Entity> {
        self.entities@
    }

    /// The component store as a map from entity id and kind to value.
    pub closed spec fn cmap(self) -> Map<(u64, ComponentId), Component> {
        assoc_map(self.comps@)
    }

    /// The stored entry for `e` of kind `k`, if any: what `get_component`
    /// returns.
    pub open spec fn lookup(self, e: Entity, k: ComponentId) -> Option<Component> {
        if self.cmap().contains_key((e.0, k)) {
            Some(self.cmap()[(e.0, k)])
        } else {
            None
        }
    }

    /// The entities holding a component of kind `k`, in store order: what
    /// `query` returns.
    pub closed spec fn query_spec(self, k: ComponentId) -> Seq<Entity> {
        ents_with(self.comps@, k)
    }

    /// The wall list.
    pub closed spec fn walls_view(self) -> Seq<Wall> {
        self.walls@
    }

    /// Well-formedness: no two store entries share a key, live entities are
    /// distinct, and every live id is below the id counter.
    pub closed spec fn wf(self) -> bool {
        &&& forall|i: int, j: int|
            0 <= i < j < self.comps@.len() ==> key_of(self.comps@[i]) != key_of(self.comps@[j])
        &&& forall|i: int, j: int|
            0 <= i < j < self.entities@.len() ==> self.entities@[i] != self.entities@[j]
        &&& forall|i: int|
            0 <= i < self.entities@.len() ==> (#[trigger] self.entities@[i]).0
                < self.next_entity_id
    }

    /// Numeric sanity of the whole world: every stored component and every
    /// wall is within the limits the systems' arithmetic needs.
    pub open spec fn bounded(self) -> bool {
        &&& forall|key: (u64, ComponentId)| #[trigger]
            self.cmap().contains_key(key) ==> super::component::component_bounded(
                self.cmap()[key],
            )
        &&& crate::pathfinding::walls_bounded(self.walls_view())
    }

    /// Every stored component belongs to an id below the counter, so a
    /// freshly spawned entity starts with no components.
    pub open spec fn ids_below_next(self) -> bool {
        forall|key: (u64, ComponentId)| #[trigger]
            self.cmap().contains_key(key) ==> key.0 < self.next_id()
    }

    pub fn new() -> (r: World)
        ensures
            r.wf(),
            r.next_id() == 0,
            r.live() == Seq::<Entity>::empty(),
            r.cmap() == Map::<(u64, ComponentId), Component>::empty(),
            r.walls_view() == Seq::<Wall>::empty(),
    {
        let r = World {
            next_entity_id: 0,
            entities: Vec::new(),
            comps: Vec::new(),
            walls: Vec::new(),
        };
        proof {
            assert(r.live() =~= Seq::<Entity>::empty());
            assert(r.cmap() =~= Map::<(u64, ComponentId), Component>::empty());
            assert(r.walls_view() =~= Seq::<Wall>::empty());
        }
        r
    }

    /// Creates a fresh entity: its id has never been issued before.
    pub fn spawn(&mut self) -> (r: Entity)
        requires
            old(self).wf(),
            old(self).next_id() < u64::MAX,
        ensures
            final (self).wf(),
            r.0 == old(self).next_id(),
            !old(self).live().contains(r),
            final (self).live() == old(self).live().push(r),
            final (self).next_id() == old(self).next_id() + 1,
            final (self).cmap() == old(self).cmap(),
            final (self).walls_view() == old(self).walls_view(),
            forall|k: ComponentId| #[trigger]
                final (self).query_spec(k) == old(self).query_spec(k),
    {
        let entity = Entity(self.next_entity_id);
        self.next_entity_id = self.next_entity_id + 1;
        self.entities.push(entity);
        proof {
            if old(self).live().contains(entity) {
                let i = choose|i: int|
                    0 <= i < old(self).live().len() && old(self).live()[i] == entity;
                assert(old(self).live()[i].0 < entity.0);
            }
        }
        entity
    }

    /// Appends a wall obstacle.
    pub fn add_wall(&mut self, x: i64, y: i64, width: i64, height: i64)
        ensures
            final (self).walls_view() == old(self).walls_view().push(
                Wall { x, y, width, height },
            ),
            old(self).wf() ==> final (self).wf(),
            final (self).live() == old(self).live(),
            final (self).cmap() == old(self).cmap(),
            final (self).next_id() == old(self).next_id(),
            forall|k: ComponentId| #[trigger]
                final (self).query_spec(k) == old(self).query_spec(k),
    {
        self.walls.push(Wall { x, y, width, height });
        proof {
            assert(final (self).comps@ == old(self).comps@);
            assert(final (self).entities@ == old(self).entities@);
        }
    }

    /// The id the next spawned entity will receive.
    pub fn next_id_hint(&self) -> (r: u64)
        ensures
            r == self.next_id(),
    {
        self.next_entity_id
    }

    /// The wall list.
    pub fn walls(&self) -> (r: &Vec<Wall>)
        ensures
            r@ == self.walls_view(),
    {
        &self.walls
    }

    /// The live entities.
    pub fn entities(&self) -> (r: &Vec<Entity>)
        ensures
            r@ == self.live(),
    {
        &self.entities
    }

    /// Drops all entities, components and walls, as a game restart does.
    pub fn clear(&mut self)
        ensures
            final (self).wf(),
            final (self).live() == Seq::<Entity>::empty(),
            final (self).cmap() == Map::<(u64, ComponentId), Component>::empty(),
            final (self).walls_view() == Seq::<Wall>::empty(),
            final (self).next_id() == old(self).next_id(),
            forall|k: ComponentId| #[trigger]
                final (self).query_spec(k) == Seq::<Entity>::empty(),
    {
        self.entities.clear();
        self.comps.clear();
        self.walls.clear();
        proof {
            assert(final (self).live() =~= Seq::<Entity>::empty());
            assert(final (self).cmap() =~= Map::<(u64, ComponentId), Component>::empty());
            assert(final (self).walls_view() =~= Seq::<Wall>::empty());
        }
    }

    /// Inserts a component for an entity, overwriting an entry of the same
    /// kind; the entity need not be live.
    pub fn add_component(&mut self, entity: Entity, component: Component)
        requires
            old(self).wf(),
        ensures
            final (self).wf(),
            final (self).cmap() == old(self).cmap().insert(
                (entity.0, component.kind_spec()),
                component,
            ),
            final (self).live() == old(self).live(),
            final (self).walls_view() == old(self).walls_view(),
            final (self).next_id() == old(self).next_id(),
            old(self).cmap().contains_key((entity.0, component.kind_spec())) ==> forall|
                k2: ComponentId,
            | #[trigger] final (self).query_spec(k2) == old(self).query_spec(k2),
            !old(self).cmap().contains_key((entity.0, component.kind_spec())) ==> final (self).query_spec(
                component.kind_spec(),
            ) == old(self).query_spec(component.kind_spec()).push(entity) && forall|
                k2: ComponentId,
            |
                k2 != component.kind_spec() ==> #[trigger] final (self).query_spec(k2) == old(
                    self,
                ).query_spec(k2),
    {
        let k = component.kind();
        let n = self.comps.len();
        let mut i: usize = 0;
        while i < n
            invariant
                i <= n,
                n == self.comps.len(),
                *self == *old(self),
                old(self).wf(),
                k == component.kind_spec(),
                forall|j: int| 0 <= j < i ==> key_of(self.comps@[j]) != (entity.0, k),
            decreases n - i,
        {
            let p = self.comps[i];
            if p.0 == entity && p.1.kind() == k {
                proof {
                    lemma_assoc_update(self.comps@, i as int, (entity, component));
                    lemma_assoc_at(self.comps@, i as int);
                    assert forall|k2: ComponentId| #[trigger] ents_with(
                        self.comps@.update(i as int, (entity, component)),
                        k2,
                    ) == ents_with(self.comps@, k2) by {
                        lemma_ents_with_update(self.comps@, i as int, (entity, component), k2);
                    }
                }
                self.comps[i] = (entity, component);
                return ;
            }
            i = i + 1;
        }
        proof {
            lemma_assoc_contains(self.comps@, (entity.0, k));
        }
        self.comps.push((entity, component));
        proof {
            let s = old(self).comps@;
            let s2 = final (self).comps@;
            assert(s2 == s.push((entity, component)));
            assert(s2.drop_last() =~= s);
            assert(assoc_map(s2) == assoc_map(s).insert((entity.0, k), component));
            assert(distinct_keys(s2)) by {
                assert(forall|a: int| 0 <= a < s.len() ==> s2[a] == s[a]);
                assert(key_of(s2[s.len() as int]) == (entity.0, k));
            }
            assert(s2.last() == (entity, component));
            assert(ents_with(s2, k) == ents_with(s, k).push(entity));
            assert forall|k2: ComponentId|
                k2 != component.kind_spec() implies #[trigger] ents_with(s2, k2) == ents_with(
                s,
                k2,
            ) by {}
        }
    }

    /// Looks up the component of kind `kind` attached to `entity`; absence
    /// is a normal outcome, not a fault.
    pub fn get_component(&self, entity: Entity, kind: ComponentId) -> (r: Option<Component>)
        requires
            self.wf(),
        ensures
            r == self.lookup(entity, kind),
    {
        let n = self.comps.len();
        let mut i: usize = 0;
        while i < n
            invariant
                i <= n,
                n == self.comps.len(),
                self.wf(),
                forall|j: int| 0 <= j < i ==> key_of(self.comps@[j]) != (entity.0, kind),
            decreases n - i,
        {
            let p = self.comps[i];
            if p.0 == entity && p.1.kind() == kind {
                proof {
                    lemma_assoc_at(self.comps@, i as int);
                }
                return Some(p.1);
            }
            i = i + 1;
        }
        proof {
            lemma_assoc_contains(self.comps@, (entity.0, kind));
        }
        None
    }

    /// Whether `entity` currently holds a component of kind `kind`.
    pub fn has_component(&self, entity: Entity, kind: ComponentId) -> (r: bool)
        requires
            self.wf(),
        ensures
            r == self.cmap().contains_key((entity.0, kind)),
    {
        self.get_component(entity, kind).is_some()
    }

    /// Mutable access to the component of kind `kind` attached to `entity`.
    /// The guarantees below hold when the caller leaves a value of the same
    /// kind behind the reference, as a well-behaved caller does.
    pub fn get_component_mut(&mut self, entity: Entity, kind: ComponentId) -> (r: Option<
        &mut Component,
    >)
        requires
            old(self).wf(),
        ensures
            r is None ==> *final (self) == *old(self) && !old(self).cmap().contains_key(
                (entity.0, kind),
            ),
            r matches Some(c) ==> {
                &&& old(self).cmap().contains_key((entity.0, kind))
                &&& *c == old(self).cmap()[(entity.0, kind)]
                &&& ((*final (c)).kind_spec() == kind ==> {
                    &&& final (self).wf()
                    &&& final (self).cmap() == old(self).cmap().insert(
                        (entity.0, kind),
                        *final (c),
                    )
                    &&& final (self).live() == old(self).live()
                    &&& final (self).walls_view() == old(self).walls_view()
                    &&& final (self).next_id() == old(self).next_id()
                })
            },
    {
        let n = self.comps.len();
        let mut i: usize = 0;
        while i < n
            invariant
                i <= n,
                n == self.comps.len(),
                *self == *old(self),
                old(self).wf(),
                forall|j: int| 0 <= j < i ==> key_of(self.comps@[j]) != (entity.0, kind),
            decreases n - i,
        {
            let p = self.comps[i];
            if p.0 == entity && p.1.kind() == kind {
                proof {
                    lemma_assoc_at(self.comps@, i as int);
                    lemma_assoc_update_forall(self.comps@, i as int);
                }
                let slot = &mut self.comps[i];
                let c = &mut slot.1;
                return Some(c);
            }
            i = i + 1;
        }
        proof {
            lemma_assoc_contains(self.comps@, (entity.0, kind));
        }
        None
    }

    /// Removes and returns the component of kind `kind` attached to
    /// `entity`, if present.
    pub fn remove_component(&mut self, entity: Entity, kind: ComponentId) -> (r: Option<
        Component,
    >)
        requires
            old(self).wf(),
        ensures
            final (self).wf(),
            r == old(self).lookup(entity, kind),
            final (self).cmap() == old(self).cmap().remove((entity.0, kind)),
            final (self).live() == old(self).live(),
            final (self).walls_view() == old(self).walls_view(),
            final (self).next_id() == old(self).next_id(),
    {
        let n = self.comps.len();
        let mut i: usize = 0;
        while i < n
            invariant
                i <= n,
                n == self.comps.len(),
                *self == *old(self),
                old(self).wf(),
                forall|j: int| 0 <= j < i ==> key_of(self.comps@[j]) != (entity.0, kind),
            decreases n - i,
        {
            let p = self.comps[i];
            if p.0 == entity && p.1.kind() == kind {
                proof {
                    lemma_assoc_at(self.comps@, i as int);
                    lemma_assoc_remove(self.comps@, i as int);
                }
                self.comps.remove(i);
                return Some(p.1);
            }
            i = i + 1;
        }
        proof {
            lemma_assoc_contains(self.comps@, (entity.0, kind));
            assert(final (self).cmap() =~= old(self).cmap().remove((entity.0, kind)));
        }
        None
    }

    /// Removes the entity from the live set and deletes all of its
    /// components; later lookups for it return absence, not an error.
    pub fn despawn(&mut self, entity: Entity)
        requires
            old(self).wf(),
        ensures
            final (self).wf(),
            final (self).live() == ents_without(old(self).live(), entity),
            forall|x: Entity| #[trigger]
                final (self).live().contains(x) <==> (old(self).live().contains(x) && x
                    != entity),
            final (self).cmap() == old(self).cmap().remove_keys(keys_of_entity(entity.0)),
            final (self).walls_view() == old(self).walls_view(),
            final (self).next_id() == old(self).next_id(),
            forall|k: ComponentId|
                !old(self).cmap().contains_key((entity.0, k)) ==> #[trigger] final (self).query_spec(
                    k,
                ) == old(self).query_spec(k),
    {
        let n = self.entities.len();
        let mut kept: Vec<Entity> = Vec::new();
        let mut i: usize = 0;
        while i < n
            invariant
                i <= n,
                n == self.entities.len(),
                *self == *old(self),
                kept@ == ents_without(self.entities@.take(i as int), entity),
            decreases n - i,
        {
            let e = self.entities[i];
            proof {
                let t = self.entities@.take(i as int);
                assert(self.entities@.take(i + 1).drop_last() =~= t);
                assert(self.entities@.take(i + 1).last() == e);
            }
            if e != entity {
                kept.push(e);
            }
            i = i + 1;
        }
        proof {
            assert(self.entities@.take(n as int) =~= self.entities@);
        }
        self.entities = kept;

        let m = self.comps.len();
        let mut kept_comps: Vec<(Entity, Component)> = Vec::new();
        let mut j: usize = 0;
        while j < m
            invariant
                j <= m,
                m == self.comps.len(),
                self.comps@ == old(self).comps@,
                kept_comps@ == entries_without(self.comps@.take(j as int), entity),
            decreases m - j,
        {
            let p = self.comps[j];
            proof {
                let t = self.comps@.take(j as int);
                assert(self.comps@.take(j + 1).drop_last() =~= t);
                assert(self.comps@.take(j + 1).last() == p);
            }
            if p.0 != entity {
                kept_comps.push(p);
            }
            j = j + 1;
        }
        proof {
            assert(self.comps@.take(m as int) =~= self.comps@);
        }
        self.comps = kept_comps;
        proof {
            lemma_entries_without_map(old(self).comps@, entity);
            lemma_ents_without(old(self).entities@, entity);
            // Distinctness and the id bound carry over because every kept
            // entity comes from the old live list.
            let r = ents_without(old(self).entities@, entity);
            let s = old(self).entities@;
            assert forall|a: int, b: int| 0 <= a < b < r.len() implies r[a] != r[b] by {
                lemma_ents_without_index(s, entity, a, b);
            }
            assert forall|a: int| 0 <= a < r.len() implies (#[trigger] r[a]).0 < old(
                self,
            ).next_id() by {
                assert(r.contains(r[a]));
                assert(s.contains(r[a]));
                let c = choose|c: int| 0 <= c < s.len() && s[c] == r[a];
            }
            assert forall|k: ComponentId|
                !old(self).cmap().contains_key((entity.0, k)) implies #[trigger] final (self).query_spec(
                k,
            ) == old(self).query_spec(k) by {
                lemma_assoc_contains(old(self).comps@, (entity.0, k));
                assert(forall|i: int|
                    0 <= i < old(self).comps@.len() ==> !(key_of(#[trigger] old(self).comps@[i])
                        == (entity.0, k)));
                lemma_entries_without_ents_with(old(self).comps@, entity, k);
            }
        }
    }

    /// All entities currently holding a component of kind `k`, in store
    /// order.
    pub fn query(&self, k: ComponentId) -> (r: Vec<Entity>)
        requires
            self.wf(),
        ensures
            r@ == self.query_spec(k),
    {
        let n = self.comps.len();
        let mut r: Vec<Entity> = Vec::new();
        let mut i: usize = 0;
        while i < n
            invariant
                i <= n,
                n == self.comps.len(),
                r@ == ents_with(self.comps@.take(i as int), k),
            decreases n - i,
        {
            let p = self.comps[i];
            proof {
                let t = self.comps@.take(i as int);
                assert(self.comps@.take(i + 1).drop_last() =~= t);
                assert(self.comps@.take(i + 1).last() == p);
            }
            if p.1.kind() == k {
                r.push(p.0);
            }
            i = i + 1;
        }
        proof {
            assert(self.comps@.take(n as int) =~= self.comps@);
        }
        r
    }

    /// Entities holding both kinds, filtered from `query(k1)`.
    pub fn query_with(&self, k1: ComponentId, k2: ComponentId) -> (r: Vec<Entity>)
        requires
            self.wf(),
        ensures
            r@ == having(self.query_spec(k1), self.cmap(), k2),
    {
        let base = self.query(k1);
        let n = base.len();
        let mut r: Vec<Entity> = Vec::new();
        let mut i: usize = 0;
        while i < n
            invariant
                i <= n,
                n == base.len(),
                self.wf(),
                base@ == self.query_spec(k1),
                r@ == having(base@.take(i as int), self.cmap(), k2),
            decreases n - i,
        {
            let e = base[i];
            proof {
                let t = base@.take(i as int);
                assert(base@.take(i + 1).drop_last() =~= t);
                assert(base@.take(i + 1).last() == e);
            }
            if self.has_component(e, k2) {
                r.push(e);
            }
            i = i + 1;
        }
        proof {
            assert(base@.take(n as int) =~= base@);
        }
        r
    }

    /// Entities holding all three kinds, filtered from `query(k1)`.
    pub fn query_with3(&self, k1: ComponentId, k2: ComponentId, k3: ComponentId) -> (r: Vec<
        Entity,
    >)
        requires
            self.wf(),
        ensures
            r@ == having2(self.query_spec(k1), self.cmap(), k2, k3),
    {
        let base = self.query(k1);
        let n = base.len();
        let mut r: Vec<Entity> = Vec::new();
        let mut i: usize = 0;
        while i < n
            invariant
                i <= n,
                n == base.len(),
                self.wf(),
                base@ == self.query_spec(k1),
                r@ == having2(base@.take(i as int), self.cmap(), k2, k3),
            decreases n - i,
        {
            let e = base[i];
            proof {
                let t = base@.take(i as int);
                assert(base@.take(i + 1).drop_last() =~= t);
                assert(base@.take(i + 1).last() == e);
            }
            if self.has_component(e, k2) && self.has_component(e, k3) {
                r.push(e);
            }
            i = i + 1;
        }
        proof {
            assert(base@.take(n as int) =~= base@);
        }
        r
    }
}

/// Rewriting the value of the entry at `i`, keeping its entity and kind,
/// rewrites exactly that key in the map.
proof fn lemma_assoc_update_forall(s: Seq<(Entity, Component)>, i: int)
    requires
        distinct_keys(s),
        0 <= i < s.len(),
    ensures
        forall|v: Component|
            v.kind_spec() == key_of(s[i]).1 ==> #[trigger] assoc_map(s.update(i, (s[i].0, v)))
                == assoc_map(s).insert(key_of(s[i]), v),
        forall|v: Component|
            v.kind_spec() == key_of(s[i]).1 ==> distinct_keys(
                #[trigger] s.update(i, (s[i].0, v)),
            ),
{
    assert forall|v: Component| v.kind_spec() == key_of(s[i]).1 implies #[trigger] assoc_map(
        s.update(i, (s[i].0, v)),
    ) == assoc_map(s).insert(key_of(s[i]), v) && distinct_keys(s.update(i, (s[i].0, v))) by {
        lemma_assoc_update(s, i, (s[i].0, v));
    }
}

/// Entities kept by `ents_without` at distinct positions are distinct when
/// the source list is distinct.
proof fn lemma_ents_without_index(s: Seq<Entity>, e: Entity, a: int, b: int)
    requires
        forall|i: int, j: int| 0 <= i < j < s.len() ==> s[i] != s[j],
        0 <= a < b < ents_without(s, e).len(),
    ensures
        ents_without(s, e)[a] != ents_without(s, e)[b],
    decreases s.len(),
{
    if s.len() > 0 {
        let r = ents_without(s, e);
        let rd = ents_without(s.drop_last(), e);
        assert(forall|i: int, j: int|
            0 <= i < j < s.drop_last().len() ==> s.drop_last()[i] != s.drop_last()[j]);
        if s.last() != e && b == r.len() - 1 {
            assert(r[b] == s.last());
            assert(r[a] == rd[a]);
            lemma_ents_without_contains_aux(s.drop_last(), e, a);
            let c = choose|c: int| 0 <= c < s.drop_last().len() && s.drop_last()[c] == rd[a];
            assert(s[c] == rd[a]);
            assert(s[c] != s[s.len() - 1]);
        } else {
            lemma_ents_without_index(s.drop_last(), e, a, b);
        }
    }
}

/// Each kept entity occurs in the source list.
proof fn lemma_ents_without_contains_aux(s: Seq<Entity>, e: Entity, a: int)
    requires
        0 <= a < ents_without(s, e).len(),
    ensures
        exists|c: int| 0 <= c < s.len() && s[c] == ents_without(s, e)[a],
    decreases s.len(),
{
    if s.len() > 0 {
        let r = ents_without(s, e);
        let rd = ents_without(s.drop_last(), e);
        if s.last() != e && a == r.len() - 1 {
            assert(s[s.len() - 1] == r[a]);
        } else {
            lemma_ents_without_contains_aux(s.drop_last(), e, a);
            let c = choose|c: int| 0 <= c < s.drop_last().len() && s.drop_last()[c] == rd[a];
            assert(s[c] == rd[a]);
            assert(r[a] == rd[a]);
        }
    }
}

impl Default for World {
    /// An empty world, as `World::new` builds it.
    fn default() -> (r: World)
        ensures
            r.wf(),
            r.next_id() == 0,
            r.live() == Seq::<Entity>::empty(),
            r.cmap() == Map::<(u64, ComponentId), Component>::empty(),
            r.walls_view() == Seq::<Wall>::empty(),
    {
        World::new()
    }
}

/// Which entities a list of entries of kind `k` names: membership in
/// `ents_with` is exactly having an entry of that kind.
proof fn lemma_ents_with_contains(s: Seq<(Entity, Component)>, k: ComponentId)
    ensures
        forall|e: Entity| #[trigger]
            ents_with(s, k).contains(e) <==> exists|i: int|
                0 <= i < s.len() && #[trigger] key_of(s[i]) == (e.0, k),
    decreases s.len(),
{
    if s.len() > 0 {
        lemma_ents_with_contains(s.drop_last(), k);
        let r = ents_with(s, k);
        let rd = ents_with(s.drop_last(), k);
        assert forall|e: Entity| #[trigger] r.contains(e) implies exists|i: int|
            0 <= i < s.len() && #[trigger] key_of(s[i]) == (e.0, k) by {
            let a = choose|a: int| 0 <= a < r.len() && r[a] == e;
            if s.last().1.kind_spec() == k && a == r.len() - 1 {
                assert(key_of(s[s.len() - 1]) == (e.0, k));
            } else {
                assert(rd.contains(e));
                let i = choose|i: int|
                    0 <= i < s.drop_last().len() && #[trigger] key_of(s.drop_last()[i]) == (e.0, k);
                assert(key_of(s[i]) == (e.0, k));
            }
        }
        assert forall|e: Entity|
            exists|i: int| 0 <= i < s.len() && #[trigger] key_of(s[i]) == (e.0, k) implies #[trigger] r.contains(e) by {
            let i = choose|i: int| 0 <= i < s.len() && #[trigger] key_of(s[i]) == (e.0, k);
            assert(s[i].0 == e);
            if i == s.len() - 1 {
                assert(r.last() == e);
                assert(r.contains(r[r.len() - 1]));
            } else {
                assert(key_of(s.drop_last()[i]) == (e.0, k));
                assert(rd.contains(e));
                let a = choose|a: int| 0 <= a < rd.len() && rd[a] == e;
                assert(r[a] == e);
            }
        }
    }
}

/// Each entity named by `ents_with` occurs in the source entries.
proof fn lemma_ents_with_from(s: Seq<(Entity, Component)>, k: ComponentId, a: int)
    requires
        0 <= a < ents_with(s, k).len(),
    ensures
        exists|i: int|
            0 <= i < s.len() && #[trigger] key_of(s[i]) == (ents_with(s, k)[a].0, k),
    decreases s.len(),
{
    if s.len() > 0 {
        let r = ents_with(s, k);
        let rd = ents_with(s.drop_last(), k);
        if s.last().1.kind_spec() == k && a == r.len() - 1 {
            assert(key_of(s[s.len() - 1]) == (r[a].0, k));
        } else {
            lemma_ents_with_from(s.drop_last(), k, a);
            let i = choose|i: int|
                0 <= i < s.drop_last().len() && #[trigger] key_of(s.drop_last()[i]) == (rd[a].0, k);
            assert(r[a] == rd[a]);
            assert(key_of(s[i]) == (r[a].0, k));
        }
    }
}

/// Entities at distinct positions of `ents_with` differ when the store's
/// keys are distinct.
proof fn lemma_ents_with_index(s: Seq<(Entity, Component)>, k: ComponentId, a: int, b: int)
    requires
        distinct_keys(s),
        0 <= a < b < ents_with(s, k).len(),
    ensures
        ents_with(s, k)[a] != ents_with(s, k)[b],
    decreases s.len(),
{
    if s.len() > 0 {
        let r = ents_with(s, k);
        let rd = ents_with(s.drop_last(), k);
        lemma_distinct_drop_last(s);
        if s.last().1.kind_spec() == k && b == r.len() - 1 {
            assert(r[b] == s.last().0);
            assert(r[a] == rd[a]);
            lemma_ents_with_from(s.drop_last(), k, a);
            let i = choose|i: int|
                0 <= i < s.drop_last().len() && #[trigger] key_of(s.drop_last()[i]) == (rd[a].0, k);
            assert(key_of(s[i]) == (rd[a].0, k));
            if r[a] == r[b] {
                assert(key_of(s[i]) == key_of(s[s.len() - 1]));
            }
        } else {
            lemma_ents_with_index(s.drop_last(), k, a, b);
        }
    }
}

/// After a component of kind `c.kind_spec()` is added for `e`, looking that
/// kind up on `e` yields exactly the added value.
pub proof fn lemma_add_then_get(w0: World, w1: World, e: Entity, c: Component)
    requires
        w1.cmap() == w0.cmap().insert((e.0, c.kind_spec()), c),
    ensures
        w1.lookup(e, c.kind_spec()) == Some(c),
{
}

/// After the component of kind `k` is removed from `e`, looking it up
/// yields nothing.
pub proof fn lemma_remove_then_get(w0: World, w1: World, e: Entity, k: ComponentId)
    requires
        w1.cmap() == w0.cmap().remove((e.0, k)),
    ensures
        w1.lookup(e, k) == None::<Component>,
{
}

/// After `despawn(e)`, no component of any kind remains attached to `e`:
/// every `has_component` check on `e` is false.
pub proof fn lemma_despawn_clears(w0: World, w1: World, e: Entity)
    requires
        w1.cmap() == w0.cmap().remove_keys(keys_of_entity(e.0)),
    ensures
        forall|k: ComponentId| !w1.cmap().contains_key((e.0, k)),
        forall|k: ComponentId| w1.lookup(e, k) == None::<Component>,
{
    assert forall|k: ComponentId| !w1.cmap().contains_key((e.0, k)) by {
        assert(keys_of_entity(e.0).contains((e.0, k)));
    }
}

/// `query(k)` returns exactly the set of entities holding a component of
/// kind `k` — the outcome does not depend on insertion order — and it
/// returns each such entity once.
pub proof fn lemma_query_exact(w: World, k: ComponentId)
    requires
        w.wf(),
    ensures
        forall|e: Entity| #[trigger]
            w.query_spec(k).contains(e) <==> w.cmap().contains_key((e.0, k)),
        forall|a: int, b: int|
            0 <= a < b < w.query_spec(k).len() ==> w.query_spec(k)[a] != w.query_spec(k)[b],
{
    lemma_ents_with_contains(w.comps@, k);
    assert forall|e: Entity| #[trigger] w.query_spec(k).contains(e) <==> w.cmap().contains_key(
        (e.0, k),
    ) by {
        lemma_assoc_contains(w.comps@, (e.0, k));
    }
    assert forall|a: int, b: int|
        0 <= a < b < w.query_spec(k).len() implies w.query_spec(k)[a] != w.query_spec(k)[b] by {
        lemma_ents_with_index(w.comps@, k, a, b);
    }
}

impl World {
    /// Every entity named by `query` indeed holds a component of the
    /// queried kind.
    pub proof fn lemma_query_entity_has_component(w: World, k: ComponentId, i: int)
        requires
            w.wf(),
            0 <= i < w.query_spec(k).len(),
        ensures
            w.cmap().contains_key((w.query_spec(k)[i].0, k)),
            w.lookup(w.query_spec(k)[i], k) is Some,
    {
        assert(w.query_spec(k).contains(w.query_spec(k)[i]));
        lemma_query_exact(w, k);
    }
}

proof fn lemma_assoc_kind(s: Seq<(Entity, Component)>, key: (u64, ComponentId))
    requires
        assoc_map(s).contains_key(key),
    ensures
        assoc_map(s)[key].kind_spec() == key.1,
    decreases s.len(),
{
    if s.len() > 0 {
        if key_of(s.last()) == key {
        } else {
            lemma_assoc_kind(s.drop_last(), key);
        }
    }
}

impl World {
    /// A value stored under a kind is of that kind: the key is derived
    /// from the value itself.
    pub proof fn lemma_lookup_kind(w: World, e: Entity, k: ComponentId)
        requires
            w.cmap().contains_key((e.0, k)),
        ensures
            w.cmap()[(e.0, k)].kind_spec() == k,
    {
        lemma_assoc_kind(w.comps@, (e.0, k));
    }
}

/// Replacing an entry's value, keeping entity and kind, leaves every kind's
/// entity list unchanged.
proof fn lemma_ents_with_update(s: Seq<(Entity, Component)>, i: int, p: (Entity, Component), k: ComponentId)
    requires
        0 <= i < s.len(),
        key_of(p) == key_of(s[i]),
        p.0 == s[i].0,
    ensures
        ents_with(s.update(i, p), k) == ents_with(s, k),
    decreases s.len(),
{
    let u = s.update(i, p);
    if i == s.len() - 1 {
        assert(u.drop_last() =~= s.drop_last());
        assert(u.last() == p);
        assert(u.last().1.kind_spec() == s.last().1.kind_spec());
        assert(u.last().0 == s.last().0);
    } else {
        lemma_ents_with_update(s.drop_last(), i, p, k);
        assert(u.drop_last() =~= s.drop_last().update(i, p));
        assert(u.last() == s.last());
        assert(s.drop_last()[i] == s[i]);
    }
}

/// Maps equal except possibly at keys of the given kinds: same domain, and
/// untouched kinds keep their values.
pub open spec fn same_except_kinds(
    m0: Map<(u64, ComponentId), Component>,
    m1: Map<(u64, ComponentId), Component>,
    ks: Set<ComponentId>,
) -> bool {
    &&& m1.dom() == m0.dom()
    &&& forall|key: (u64, ComponentId)| #[trigger]
        m0.contains_key(key) && !ks.contains(key.1) ==> m1[key] == m0[key]
}

/// Membership in `having`: exactly the listed entities that the map gives
/// a component of kind `k`.
proof fn lemma_having_contains(
    s: Seq<Entity>,
    m: Map<(u64, ComponentId), Component>,
    k: ComponentId,
)
    ensures
        forall|e: Entity| #[trigger]
            having(s, m, k).contains(e) <==> (s.contains(e) && m.contains_key((e.0, k))),
    decreases s.len(),
{
    if s.len() > 0 {
        lemma_having_contains(s.drop_last(), m, k);
        let r = having(s, m, k);
        let rd = having(s.drop_last(), m, k);
        assert forall|e: Entity| #[trigger] r.contains(e) implies (s.contains(e)
            && m.contains_key((e.0, k))) by {
            let a = choose|a: int| 0 <= a < r.len() && r[a] == e;
            if m.contains_key((s.last().0, k)) && a == r.len() - 1 {
                assert(s[s.len() - 1] == e);
            } else {
                assert(rd.contains(e));
                let c = choose|c: int| 0 <= c < s.drop_last().len() && s.drop_last()[c] == e;
                assert(s[c] == e);
            }
        }
        assert forall|e: Entity| (s.contains(e) && m.contains_key((e.0, k))) implies #[trigger] r
            .contains(e) by {
            let a = choose|a: int| 0 <= a < s.len() && s[a] == e;
            if a == s.len() - 1 {
                assert(r.last() == e);
                assert(r.contains(r[r.len() - 1]));
            } else {
                assert(s.drop_last()[a] == e);
                assert(s.drop_last().contains(e));
                assert(rd.contains(e));
                let b = choose|b: int| 0 <= b < rd.len() && rd[b] == e;
                assert(r[b] == e);
            }
        }
    }
}

/// `query_with(k1, k2)` returns exactly the set of entities holding both
/// kinds, each once.
pub proof fn lemma_query_with_exact(w: World, k1: ComponentId, k2: ComponentId)
    requires
        w.wf(),
    ensures
        forall|e: Entity| #[trigger]
            having(w.query_spec(k1), w.cmap(), k2).contains(e) <==> (w.cmap().contains_key(
                (e.0, k1),
            ) && w.cmap().contains_key((e.0, k2))),
        forall|a: int, b: int|
            0 <= a < b < having(w.query_spec(k1), w.cmap(), k2).len() ==> having(
                w.query_spec(k1),
                w.cmap(),
                k2,
            )[a] != having(w.query_spec(k1), w.cmap(), k2)[b],
{
    lemma_query_exact(w, k1);
    lemma_having_contains(w.query_spec(k1), w.cmap(), k2);
    let r = having(w.query_spec(k1), w.cmap(), k2);
    assert forall|a: int, b: int| 0 <= a < b < r.len() implies r[a] != r[b] by {
        lemma_having_index(w.query_spec(k1), w.cmap(), k2, a, b);
    }
}

/// Entities at distinct positions of `having` differ when the base list's
/// entries do.
proof fn lemma_having_index(
    s: Seq<Entity>,
    m: Map<(u64, ComponentId), Component>,
    k: ComponentId,
    a: int,
    b: int,
)
    requires
        forall|i: int, j: int| 0 <= i < j < s.len() ==> s[i] != s[j],
        0 <= a < b < having(s, m, k).len(),
    ensures
        having(s, m, k)[a] != having(s, m, k)[b],
    decreases s.len(),
{
    if s.len() > 0 {
        let r = having(s, m, k);
        let rd = having(s.drop_last(), m, k);
        assert(forall|i: int, j: int|
            0 <= i < j < s.drop_last().len() ==> s.drop_last()[i] != s.drop_last()[j]);
        if m.contains_key((s.last().0, k)) && b == r.len() - 1 {
            assert(r[b] == s.last());
            assert(r[a] == rd[a]);
            lemma_having_contains(s.drop_last(), m, k);
            assert(rd.contains(rd[a]));
            assert(s.drop_last().contains(rd[a]));
            let c = choose|c: int| 0 <= c < s.drop_last().len() && s.drop_last()[c] == rd[a];
            assert(s[c] == rd[a]);
            assert(s[c] != s[s.len() - 1]);
        } else {
            lemma_having_index(s.drop_last(), m, k, a, b);
        }
    }
}

/// In a world where every stored component belongs to a live entity,
/// `query(k)` returns exactly the live entities holding `k`.
pub proof fn lemma_query_live(w: World, k: ComponentId)
    requires
        w.wf(),
        forall|key: (u64, ComponentId)| #[trigger]
            w.cmap().contains_key(key) ==> exists|x: Entity|
                w.live().contains(x) && x.0 == key.0,
    ensures
        forall|e: Entity| #[trigger]
            w.query_spec(k).contains(e) <==> w.live().contains(e) && w.cmap().contains_key(
                (e.0, k),
            ),
{
    lemma_query_exact(w, k);
    assert forall|e: Entity| #[trigger] w.query_spec(k).contains(e) <==> w.live().contains(e)
        && w.cmap().contains_key((e.0, k)) by {
        if w.cmap().contains_key((e.0, k)) {
            let x = choose|x: Entity| w.live().contains(x) && x.0 == e.0;
            assert(x == e);
        }
    }
}

} // verus!
