//! Entities and the record of which of them are alive.

use std::collections::HashSet;
use vstd::prelude::*;

verus! {

broadcast use vstd::std_specs::hash::group_hash_axioms;

/// A handle to an entity.
#[derive(Clone, Copy, Debug, PartialEq, Eq, Structural, Hash)]
pub struct Entity {
    pub id: u64,
}

/// Creates and destroys entities, and knows which are alive.
pub struct Entities {
    next: u64,
    alive: HashSet<u64>,
}

impl Entities {
    /// The entities that are alive.
    pub closed spec fn alive(&self) -> Set<Entity> {
        Set::new(|e: Entity| self.alive@.contains(e.id))
    }

    /// The identifier that the next entity created will have.
    pub closed spec fn next_id(&self) -> u64 {
        self.next
    }

    /// Every entity alive was created earlier: its identifier is below the
    /// next one to be given out.
    pub closed spec fn wf(&self) -> bool {
        forall|id: u64| self.alive@.contains(id) ==> id < self.next
    }

    /// An entity alive has an identifier below the next one to be given out.
    pub proof fn lemma_alive_below_next(&self, e: Entity)
        requires
            self.wf(),
            self.alive().contains(e),
        ensures
            e.id < self.next_id(),
    {
    }

    pub fn new() -> (entities: Entities)
        ensures
            entities.wf(),
            entities.alive() == Set::<Entity>::empty(),
            entities.next_id() == 0,
    {
        let entities = Entities { next: 0, alive: HashSet::new() };
        assert(entities.alive() =~= Set::<Entity>::empty());
        entities
    }

    /// Creates an entity that was never given out before.
    pub fn create(&mut self) -> (e: Entity)
        requires
            old(self).wf(),
            old(self).next_id() < u64::MAX,
        ensures
            final(self).wf(),
            e.id == old(self).next_id(),
            !old(self).alive().contains(e),
            final(self).next_id() == old(self).next_id() + 1,
            final(self).alive() == old(self).alive().insert(e),
    {
        let e = Entity { id: self.next };
        self.next = self.next + 1;
        self.alive.insert(e.id);
        assert(self.alive() =~= old(self).alive().insert(e));
        e
    }

    /// Ends the life of `e`, if it is alive.
    pub fn destroy(&mut self, e: Entity)
        requires
            old(self).wf(),
        ensures
            final(self).wf(),
            final(self).next_id() == old(self).next_id(),
            final(self).alive() == old(self).alive().remove(e),
    {
        self.alive.remove(&e.id);
        assert(self.alive() =~= old(self).alive().remove(e));
    }

    pub fn is_alive(&self, e: Entity) -> (alive: bool)
        ensures
            alive == self.alive().contains(e),
    {
        self.alive.contains(&e.id)
    }
}

} // verus!
