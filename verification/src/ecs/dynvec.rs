//! Storage for the components of one kind.

use vstd::prelude::*;

verus! {

/// A growing row of slots, each holding a component or nothing. A component
/// keeps the index of its slot for as long as it is stored.
pub struct DynVec<T> {
    slots: Vec<Option<T>>,
}

impl<T> View for DynVec<T> {
    type V = Seq<Option<T>>;

    closed spec fn view(&self) -> Seq<Option<T>> {
        self.slots@
    }
}

impl<T> DynVec<T> {
    pub fn new() -> (v: DynVec<T>)
        ensures
            v@ == Seq::<Option<T>>::empty(),
    {
        DynVec { slots: Vec::new() }
    }

    /// Stores `val` in a new slot at the end, and returns the slot's index.
    pub fn add(&mut self, val: T) -> (index: usize)
        ensures
            index == old(self)@.len(),
            final(self)@ == old(self)@.push(Some(val)),
    {
        let index = self.slots.len();
        self.slots.push(Some(val));
        index
    }

    /// Empties the slot at `index`, if there is one.
    pub fn remove(&mut self, index: usize)
        ensures
            final(self)@ == cleared(old(self)@, index as int),
    {
        if index < self.slots.len() {
            self.slots[index] = None;
        }
    }

    /// The component in the slot at `index`, if there is one.
    pub fn get_component(&self, index: usize) -> (component: Option<&T>)
        ensures
            match component {
                Some(c) => index < self@.len() && self@[index as int] == Some(*c),
                None => index >= self@.len() || self@[index as int] is None,
            },
    {
        if index < self.slots.len() {
            self.slots[index].as_ref()
        } else {
            None
        }
    }

    /// The component in the slot at `index`, if there is one, to be changed
    /// in place.
    pub fn get_component_mut(&mut self, index: usize) -> (component: Option<&mut T>)
        ensures
            match component {
                Some(c) => index < old(self)@.len() && old(self)@[index as int] == Some(*c)
                    && final(self)@ == old(self)@.update(index as int, Some(*final(c))),
                None => (index >= old(self)@.len() || old(self)@[index as int] is None) && final(
                    self)@ == old(self)@,
            },
    {
        if index < self.slots.len() {
            match &mut self.slots[index] {
                Some(c) => Some(c),
                None => None,
            }
        } else {
            None
        }
    }
}

/// The slots `slots` with the one at `index` emptied, if there is one.
pub open spec fn cleared<T>(slots: Seq<Option<T>>, index: int) -> Seq<Option<T>> {
    if 0 <= index < slots.len() {
        slots.update(index, None)
    } else {
        slots
    }
}

} // verus!
