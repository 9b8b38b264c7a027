//! The world in which entities reside.

use crate::ecs::dynvec::{cleared, DynVec};
use crate::ecs::entity::{Entities, Entity};
use std::collections::HashMap;
use vstd::prelude::*;

verus! {

broadcast use vstd::std_specs::hash::group_hash_axioms;

/// Mathematical model of a [`World`].
#[verifier::ext_equal]
pub struct WorldView<C> {
    /// The entities that are alive.
    pub alive: Set<Entity>,
    /// The identifier that the next entity created will have.
    pub next_id: u64,
    /// For an entity and a kind of component: the index of the slot that
    /// holds the entity's component of that kind.
    pub attached: Map<(Entity, u64), usize>,
    /// For a kind of component: the slots of its storage.
    pub stores: Map<u64, Seq<Option<(Entity, C)>>>,
}

impl<C> WorldView<C> {
    /// The world without entities or components.
    pub open spec fn empty() -> WorldView<C> {
        WorldView { alive: Set::empty(), next_id: 0, attached: Map::empty(), stores: Map::empty() }
    }

    /// Whether `entity` can be given a component of kind `kind`: it is
    /// alive and has none of that kind.
    pub open spec fn can_attach(self, kind: u64, entity: Entity) -> bool {
        self.alive.contains(entity) && !self.attached.contains_key((entity, kind))
    }

    /// The slots of the storage for `kind`; none where nothing of that kind
    /// was ever stored.
    pub open spec fn slots(self, kind: u64) -> Seq<Option<(Entity, C)>> {
        if self.stores.contains_key(kind) {
            self.stores[kind]
        } else {
            Seq::empty()
        }
    }

    /// The world after the entity `e` has been created.
    pub open spec fn after_create(self, e: Entity) -> WorldView<C> {
        WorldView { alive: self.alive.insert(e), next_id: (self.next_id + 1) as u64, ..self }
    }

    /// The world after an attempt to give `entity` the component `comp` of
    /// kind `kind`: where that can be done, the component takes a new slot
    /// at the end of the storage for its kind.
    pub open spec fn after_insert(self, kind: u64, entity: Entity, comp: C) -> WorldView<C> {
        if self.can_attach(kind, entity) {
            WorldView {
                attached: self.attached.insert((entity, kind), self.slots(kind).len() as usize),
                stores: self.stores.insert(kind, self.slots(kind).push(Some((entity, comp)))),
                ..self
            }
        } else {
            self
        }
    }

    /// The world after the component of kind `kind` has been taken from
    /// `entity`, which has one: its slot is emptied.
    pub open spec fn after_remove(self, kind: u64, entity: Entity) -> WorldView<C> {
        WorldView {
            attached: self.attached.remove((entity, kind)),
            stores: self.stores.insert(
                kind,
                cleared(self.slots(kind), self.attached[(entity, kind)] as int),
            ),
            ..self
        }
    }

    /// The world after `entity` has been destroyed: it is no longer alive,
    /// and the slot of each of its components is emptied.
    pub open spec fn after_destroy(self, entity: Entity) -> WorldView<C> {
        WorldView {
            alive: self.alive.remove(entity),
            next_id: self.next_id,
            attached: Map::new(
                |key: (Entity, u64)| self.attached.contains_key(key) && key.0 != entity,
                |key: (Entity, u64)| self.attached[key],
            ),
            stores: Map::new(
                |kind: u64| self.stores.contains_key(kind),
                |kind: u64|
                    if self.attached.contains_key((entity, kind)) {
                        cleared(self.stores[kind], self.attached[(entity, kind)] as int)
                    } else {
                        self.stores[kind]
                    },
            ),
        }
    }
}

/// A collection of entities and their components. Components are stored by
/// kind: a number that the caller picks for each type of component.
pub struct World<C> {
    kinds: HashMap<u64, usize>,
    storages: Vec<DynVec<(Entity, C)>>,
    entities: Entities,
    ent_data: HashMap<u64, HashMap<u64, usize>>,
}

impl<C> View for World<C> {
    type V = WorldView<C>;

    closed spec fn view(&self) -> WorldView<C> {
        WorldView {
            alive: self.entities.alive(),
            next_id: self.entities.next_id(),
            attached: Map::new(
                |key: (Entity, u64)|
                    self.ent_data@.contains_key(key.0.id) && self.ent_data@[key.0.id]@.contains_key(
                        key.1,
                    ),
                |key: (Entity, u64)| self.ent_data@[key.0.id]@[key.1],
            ),
            stores: Map::new(
                |kind: u64| self.kinds@.contains_key(kind),
                |kind: u64| self.storages@[self.kinds@[kind] as int]@,
            ),
        }
    }
}

impl<C> World<C> {
    /// The storage of each kind has its own place.
    spec fn kinds_wf(&self) -> bool {
        &&& forall|k: u64| #[trigger]
            self.kinds@.contains_key(k) ==> self.kinds@[k] < self.storages@.len()
        &&& forall|k1: u64, k2: u64|
            #![trigger self.kinds@[k1], self.kinds@[k2]]
            self.kinds@.contains_key(k1) && self.kinds@.contains_key(k2) && k1 != k2
                ==> self.kinds@[k1] != self.kinds@[k2]
    }

    /// Every component on record lies in a slot of the storage for its kind.
    spec fn data_wf(&self) -> bool {
        forall|id: u64, k: u64|
            #![trigger self.ent_data@[id]@.contains_key(k)]
            self.ent_data@.contains_key(id) && self.ent_data@[id]@.contains_key(k)
                ==> self.kinds@.contains_key(k) && self.ent_data@[id]@[k]
                < self.storages@[self.kinds@[k] as int]@.len()
    }

    /// The world is well formed: the entities alive are those on record,
    /// and every component on record lies in a slot of the storage for its
    /// kind.
    pub closed spec fn wf(&self) -> bool {
        &&& self.entities.wf()
        &&& forall|id: u64|
            #![trigger self.ent_data@.contains_key(id)]
            self.ent_data@.contains_key(id) <==> self.entities.alive().contains(Entity { id })
        &&& self.kinds_wf()
        &&& self.data_wf()
    }

    /// In a well-formed world a component on record belongs to an entity
    /// that is alive and lies in a slot of the storage for its kind, and an
    /// entity alive has an identifier below the next one to be given out.
    pub proof fn lemma_attached_in_store(&self, kind: u64, entity: Entity)
        requires
            self.wf(),
        ensures
            self@.attached.contains_key((entity, kind)) ==> self@.alive.contains(entity)
                && self@.stores.contains_key(kind) && self@.attached[(entity, kind)]
                < self@.stores[kind].len(),
            self@.alive.contains(entity) ==> entity.id < self@.next_id,
    {
        if self@.attached.contains_key((entity, kind)) {
            assert(self.ent_data@.contains_key(entity.id));
            assert(self.ent_data@[entity.id]@.contains_key(kind));
            assert(entity == Entity { id: entity.id });
        }
        if self@.alive.contains(entity) {
            self.entities.lemma_alive_below_next(entity);
        }
    }

    /// Creates a new empty world.
    pub fn new() -> (world: World<C>)
        ensures
            world.wf(),
            world@ == WorldView::<C>::empty(),
    {
        let world = World {
            kinds: HashMap::new(),
            storages: Vec::new(),
            entities: Entities::new(),
            ent_data: HashMap::new(),
        };
        proof {
            assert(world@.attached =~= Map::<(Entity, u64), usize>::empty());
            assert(world@.stores =~= Map::<u64, Seq<Option<(Entity, C)>>>::empty());
        }
        world
    }

    /// Creates a new entity in the world and returns a handle to it.
    pub fn create_entity(&mut self) -> (e: Entity)
        requires
            old(self).wf(),
            old(self)@.next_id < u64::MAX,
        ensures
            final(self).wf(),
            e.id == old(self)@.next_id,
            !old(self)@.alive.contains(e),
            final(self)@ == old(self)@.after_create(e),
    {
        let id = self.entities.create();
        self.ent_data.insert(id.id, HashMap::new());
        proof {
            assert(!old(self).ent_data@.contains_key(id.id));
            assert(self@.attached =~= old(self)@.attached);
            assert(self@.stores =~= old(self)@.stores);
            assert forall|i: u64| #![trigger self.ent_data@.contains_key(i)]
                self.ent_data@.contains_key(i) <==> self.entities.alive().contains(
                    Entity { id: i },
                ) by {
                assert(old(self).ent_data@.contains_key(i) <==> old(self).entities.alive().contains(
                    Entity { id: i },
                ));
            }
        }
        id
    }

    /// Attaches a component of kind `kind` to an entity and returns the
    /// index of the component's slot. Nothing is attached to an entity that
    /// is not alive, or that has a component of that kind.
    pub fn insert_component(&mut self, kind: u64, entity: Entity, comp: C) -> (index: Option<usize>)
        requires
            old(self).wf(),
        ensures
            final(self).wf(),
            final(self)@ == old(self)@.after_insert(kind, entity, comp),
            index == if old(self)@.can_attach(kind, entity) {
                Some(old(self)@.slots(kind).len() as usize)
            } else {
                None::<usize>
            },
    {
        proof {
            assert(entity == Entity { id: entity.id });
        }
        if !self.entities.is_alive(entity) {
            return None;
        }
        let attached = match self.ent_data.get(&entity.id) {
            Some(data) => data.contains_key(&kind),
            None => true,
        };
        if attached {
            return None;
        }
        let pos = match self.kinds.get(&kind) {
            Some(p) => *p,
            None => {
                let p = self.storages.len();
                self.storages.push(DynVec::new());
                self.kinds.insert(kind, p);
                p
            },
        };
        let ghost middle = *self;
        proof {
            assert(self.kinds_wf());
            assert(self.data_wf()) by {
                assert forall|id: u64, k: u64|
                    #![trigger self.ent_data@[id]@.contains_key(k)]
                    self.ent_data@.contains_key(id) && self.ent_data@[id]@.contains_key(k)
                    implies self.kinds@.contains_key(k) && self.ent_data@[id]@[k]
                    < self.storages@[self.kinds@[k] as int]@.len() by {
                    assert(old(self).kinds@.contains_key(k));
                }
            }
        }
        let id = self.storages[pos].add((entity, comp));
        let mut data = self.ent_data.remove(&entity.id).unwrap();
        data.insert(kind, id);
        self.ent_data.insert(entity.id, data);
        proof {
            let after = old(self)@.after_insert(kind, entity, comp);
            assert(self@.attached =~= after.attached) by {
                assert forall|key: (Entity, u64)| self@.attached.contains_key(key)
                    <==> after.attached.contains_key(key) by {
                    assert(key.0 == Entity { id: key.0.id });
                }
            }
            assert(self@.stores =~= after.stores);
            assert(self.data_wf()) by {
                assert forall|i: u64, k: u64|
                    #![trigger self.ent_data@[i]@.contains_key(k)]
                    self.ent_data@.contains_key(i) && self.ent_data@[i]@.contains_key(k)
                    implies self.kinds@.contains_key(k) && self.ent_data@[i]@[k]
                    < self.storages@[self.kinds@[k] as int]@.len() by {
                    if !(i == entity.id && k == kind) {
                        assert(middle.ent_data@[i]@.contains_key(k));
                    }
                }
            }
        }
        Some(id)
    }

    /// Takes the component of kind `kind` from `entity`, which has one.
    pub fn remove_component(&mut self, kind: u64, entity: Entity)
        requires
            old(self).wf(),
            old(self)@.attached.contains_key((entity, kind)),
        ensures
            final(self).wf(),
            final(self)@ == old(self)@.after_remove(kind, entity),
    {
        self.remove_component_type(kind, entity);
    }

    /// Takes the component of kind `t` from `entity`, which has one.
    pub fn remove_component_type(&mut self, t: u64, entity: Entity)
        requires
            old(self).wf(),
            old(self)@.attached.contains_key((entity, t)),
        ensures
            final(self).wf(),
            final(self)@ == old(self)@.after_remove(t, entity),
    {
        proof {
            assert(entity == Entity { id: entity.id });
            assert(self.ent_data@[entity.id]@.contains_key(t));
        }
        let mut data = self.ent_data.remove(&entity.id).unwrap();
        let id = data.remove(&t).unwrap();
        self.ent_data.insert(entity.id, data);
        let ghost middle = *self;
        let pos = *self.kinds.get(&t).unwrap();
        self.storages[pos].remove(id);
        proof {
            let after = old(self)@.after_remove(t, entity);
            assert(self@.attached =~= after.attached) by {
                assert forall|key: (Entity, u64)| self@.attached.contains_key(key)
                    <==> after.attached.contains_key(key) by {
                    assert(key.0 == Entity { id: key.0.id });
                }
            }
            assert(self@.stores =~= after.stores);
            assert(self.data_wf()) by {
                assert forall|i: u64, k: u64|
                    #![trigger self.ent_data@[i]@.contains_key(k)]
                    self.ent_data@.contains_key(i) && self.ent_data@[i]@.contains_key(k)
                    implies self.kinds@.contains_key(k) && self.ent_data@[i]@[k]
                    < self.storages@[self.kinds@[k] as int]@.len() by {
                    assert(old(self).ent_data@[i]@.contains_key(k));
                }
            }
        }
    }

    /// Returns the component of the selected kind in the slot at `index`.
    pub fn component(&self, kind: u64, index: usize) -> (component: Option<&(Entity, C)>)
        requires
            self.wf(),
        ensures
            match component {
                Some(c) => index < self@.slots(kind).len() && self@.slots(kind)[index as int]
                    == Some(*c),
                None => index >= self@.slots(kind).len() || self@.slots(kind)[index as int] is None,
            },
    {
        match self.kinds.get(&kind) {
            Some(pos) => self.storages[*pos].get_component(index),
            None => None,
        }
    }
}

impl<C> World<C> {
    /// Creates a new entity in the world, and starts a builder for it.
    pub fn build_entity(&mut self) -> (builder: EntityBuilder<C>)
        requires
            old(self).wf(),
            old(self)@.next_id < u64::MAX,
        ensures
            final(self).wf(),
            builder.wf(),
            builder.entity().id == old(self)@.next_id,
            !old(self)@.alive.contains(builder.entity()),
            final(self)@ == old(self)@.after_create(builder.entity()),
            builder.world() == WorldView::<C>::empty(),
            builder.errors() == Seq::<String>::empty(),
    {
        EntityBuilder::new(self.create_entity())
    }

    /// Destroys a given entity and removes its components.
    pub fn destroy_entity(&mut self, entity: Entity)
        requires
            old(self).wf(),
        ensures
            final(self).wf(),
            final(self)@ == old(self)@.after_destroy(entity),
    {
        proof {
            assert(entity == Entity { id: entity.id });
        }
        self.entities.destroy(entity);
        let ghost entities = self.entities;
        match self.ent_data.remove(&entity.id) {
            Some(data) => {
                let kinds = kinds_of(&data);
                let mut n: usize = 0;
                while n < kinds.len()
                    invariant
                        n <= kinds@.len(),
                        old(self).wf(),
                        data@ == old(self).ent_data@[entity.id]@,
                        old(self).ent_data@.contains_key(entity.id),
                        self.kinds@ == old(self).kinds@,
                        self.ent_data@ == old(self).ent_data@.remove(entity.id),
                        self.entities == entities,
                        entities.wf(),
                        entities.next_id() == old(self).entities.next_id(),
                        entities.alive() == old(self).entities.alive().remove(entity),
                        self.storages@.len() == old(self).storages@.len(),
                        kinds@.to_set() == data@.dom(),
                        kinds@.no_duplicates(),
                        forall|k: u64| #[trigger]
                            self.kinds@.contains_key(k) ==> self.storages@[self.kinds@[k] as int]@
                                == if visited(kinds@, n as int, k) {
                                cleared(
                                    old(self).storages@[self.kinds@[k] as int]@,
                                    data@[k] as int,
                                )
                            } else {
                                old(self).storages@[self.kinds@[k] as int]@
                            },
                    decreases kinds@.len() - n,
                {
                    let kind = kinds[n];
                    proof {
                        assert(kinds@.to_set().contains(kind));
                        assert(old(self).ent_data@[entity.id]@.contains_key(kind));
                    }
                    let id = *data.get(&kind).unwrap();
                    let pos = *self.kinds.get(&kind).unwrap();
                    self.storages[pos].remove(id);
                    proof {
                        assert forall|k: u64| #[trigger]
                            self.kinds@.contains_key(k) implies self.storages@[self.kinds@[k] as int]@
                            == if visited(kinds@, n + 1, k) {
                            cleared(old(self).storages@[self.kinds@[k] as int]@, data@[k] as int)
                        } else {
                            old(self).storages@[self.kinds@[k] as int]@
                        } by {
                            if k == kind {
                                assert(kinds@[n as int] == k);
                                if visited(kinds@, n as int, k) {
                                    let j = choose|j: int| 0 <= j < n && kinds@[j] == k;
                                    assert(kinds@[j] == kinds@[n as int]);
                                }
                            } else {
                                assert(self.kinds@[k] != pos);
                                if visited(kinds@, n + 1, k) {
                                    let j = choose|j: int| 0 <= j < n + 1 && kinds@[j] == k;
                                    assert(0 <= j < n && kinds@[j] == k);
                                }
                                if visited(kinds@, n as int, k) {
                                    let j = choose|j: int| 0 <= j < n && kinds@[j] == k;
                                    assert(0 <= j < n + 1 && kinds@[j] == k);
                                }
                            }
                        }
                    }
                    n += 1;
                }
                proof {
                    let after = old(self)@.after_destroy(entity);
                    assert(self@.attached =~= after.attached) by {
                        assert forall|key: (Entity, u64)| self@.attached.contains_key(key)
                            <==> after.attached.contains_key(key) by {
                            assert(key.0 == Entity { id: key.0.id });
                        }
                    }
                    assert(self@.stores =~= after.stores) by {
                        assert forall|k: u64| self.kinds@.contains_key(k) implies self@.stores[k]
                            == after.stores[k] by {
                            if data@.contains_key(k) {
                                assert(kinds@.to_set().contains(k));
                                let j = choose|j: int| 0 <= j < kinds@.len() && kinds@[j] == k;
                                assert(visited(kinds@, n as int, k));
                            } else {
                                if visited(kinds@, n as int, k) {
                                    let j = choose|j: int| 0 <= j < n && kinds@[j] == k;
                                    assert(kinds@.to_set().contains(k));
                                }
                            }
                        }
                    }
                    assert(self.data_wf()) by {
                        assert forall|i: u64, k: u64|
                            #![trigger self.ent_data@[i]@.contains_key(k)]
                            self.ent_data@.contains_key(i) && self.ent_data@[i]@.contains_key(k)
                            implies self.kinds@.contains_key(k) && self.ent_data@[i]@[k]
                            < self.storages@[self.kinds@[k] as int]@.len() by {
                            assert(old(self).ent_data@[i]@.contains_key(k));
                        }
                    }
                }
            },
            None => {
                proof {
                    let after = old(self)@.after_destroy(entity);
                    assert(self@.attached =~= after.attached) by {
                        assert forall|key: (Entity, u64)| self@.attached.contains_key(key)
                            <==> after.attached.contains_key(key) by {
                            assert(key.0 == Entity { id: key.0.id });
                        }
                    }
                    assert(self@.stores =~= after.stores);
                }
            },
        }
    }

    /// Returns the component of the selected kind in the slot at `index`, to
    /// be changed in place.
    pub fn component_mut(&mut self, kind: u64, index: usize) -> (component: Option<
        &mut (Entity, C),
    >)
        requires
            old(self).wf(),
        ensures
            final(self).wf(),
            match component {
                Some(c) => index < old(self)@.slots(kind).len() && old(self)@.slots(
                    kind,
                )[index as int] == Some(*c) && final(self)@ == (WorldView {
                    stores: old(self)@.stores.insert(
                        kind,
                        old(self)@.slots(kind).update(index as int, Some(*final(c))),
                    ),
                    ..old(self)@
                }),
                None => (index >= old(self)@.slots(kind).len() || old(self)@.slots(
                    kind,
                )[index as int] is None) && final(self)@ == old(self)@,
            },
    {
        let pos = match self.kinds.get(&kind) {
            Some(pos) => *pos,
            None => {
                return None;
            },
        };
        self.storages[pos].get_component_mut(index)
    }
}

/// Whether `k` is among the first `n` of `keys`.
spec fn visited(keys: Seq<u64>, n: int, k: u64) -> bool {
    exists|j: int| 0 <= j < n && keys[j] == k
}

/// The kinds on record in `data`, each once.
fn kinds_of(data: &HashMap<u64, usize>) -> (kinds: Vec<u64>)
    ensures
        kinds@.no_duplicates(),
        kinds@.to_set() == data@.dom(),
{
    let mut kinds: Vec<u64> = Vec::new();
    for k in it: data.keys()
        invariant
            kinds@.len() == it.index(),
            forall|i: int| 0 <= i < kinds@.len() ==> kinds@[i] == *it.seq()[i],
            it.seq().unref().to_set() == data@.dom(),
            it.seq().no_duplicates(),
        ensures
            kinds@ == it.seq().unref(),
    {
        kinds.push(*k);
    }
    kinds
}

/// An entity that is not alive gets no component: the attempt changes
/// nothing.
pub proof fn lemma_insert_needs_alive<C>(w: WorldView<C>, kind: u64, entity: Entity, comp: C)
    requires
        !w.alive.contains(entity),
    ensures
        w.after_insert(kind, entity, comp) == w,
{
}

/// Consuming builder for easily constructing a new entity in a world of its
/// own.
pub struct EntityBuilder<C> {
    errors: Vec<String>,
    entity: Entity,
    world: World<C>,
}

impl<C> EntityBuilder<C> {
    /// The entity that is being built.
    pub closed spec fn entity(&self) -> Entity {
        self.entity
    }

    /// The errors met so far.
    pub closed spec fn errors(&self) -> Seq<String> {
        self.errors@
    }

    /// The builder's world.
    pub closed spec fn world(&self) -> WorldView<C> {
        self.world@
    }

    /// The builder's world is well formed.
    pub closed spec fn wf(&self) -> bool {
        self.world.wf()
    }

    /// Starts building a new entity, in a new empty world.
    pub fn new(entity: Entity) -> (builder: EntityBuilder<C>)
        ensures
            builder.wf(),
            builder.entity() == entity,
            builder.errors() == Seq::<String>::empty(),
            builder.world() == WorldView::<C>::empty(),
    {
        EntityBuilder { errors: Vec::new(), entity, world: World::new() }
    }

    /// Attempts to add a component of kind `kind` to the entity in the
    /// builder's world.
    pub fn with(self, kind: u64, component: C) -> (builder: EntityBuilder<C>)
        requires
            self.wf(),
        ensures
            builder.wf(),
            builder.entity() == self.entity(),
            builder.errors() == self.errors(),
            builder.world() == self.world().after_insert(kind, self.entity(), component),
    {
        let mut builder = self;
        let _ = builder.world.insert_component(kind, builder.entity, component);
        builder
    }

    /// Returns the builder's world, or the errors where there are any.
    pub fn done(self) -> (result: Result<World<C>, Vec<String>>)
        ensures
            match result {
                Ok(world) => self.errors().len() == 0 && world@ == self.world() && (self.wf()
                    ==> world.wf()),
                Err(errors) => self.errors().len() > 0 && errors@ == self.errors(),
            },
    {
        if self.errors.is_empty() {
            Ok(self.world)
        } else {
            Err(self.errors)
        }
    }
}

} // verus!
