//! Strongly-typed integer ids and a dense, array-backed id map.
//!
//! Each entity category gets its own id type, so ids from different spaces
//! cannot be confused; the map hands ids out in insertion order and looks
//! values up in constant time.

use vstd::prelude::*;

verus! {

/// A strongly-typed id wrapping a dense index.
pub trait Id: Sized + Copy {
    /// The index this id stands for.
    spec fn index_spec(self) -> int;

    /// The first id.
    fn new() -> (r: Self)
        ensures
            r.index_spec() == 0,
    ;

    /// The id with index `value`.
    fn create(value: u32) -> (r: Self)
        ensures
            r.index_spec() == value,
    ;

    /// The index this id stands for.
    fn get(&self) -> (r: u32)
        ensures
            r == self.index_spec(),
    ;

    /// Hands out the current id and counts past it.
    fn count_next(&mut self) -> (r: Self)
        requires
            old(self).index_spec() + 1 <= u32::MAX,
        ensures
            r == *old(self),
            final(self).index_spec() == old(self).index_spec() + 1,
    ;
}

/// A map from ids to values, backed by a dense array: the id's index is
/// the slot. Ids are handed out sequentially and never reused.
pub struct IdMap<K, V> {
    pub slots: Vec<Option<V>>,
    pub id_counter: u32,
    pub _marker: core::marker::PhantomData<K>,
}

impl<K: Id, V> IdMap<K, V> {
    /// One slot per id handed out.
    pub open spec fn wf(self) -> bool {
        self.slots@.len() == self.id_counter
    }

    /// The value stored under index `i`, if any.
    pub open spec fn spec_get(self, i: int) -> Option<V> {
        if 0 <= i < self.slots@.len() {
            self.slots@[i]
        } else {
            None
        }
    }

    /// An empty map.
    pub fn new() -> (r: IdMap<K, V>)
        ensures
            r.wf(),
            r.slots@.len() == 0,
            r.id_counter == 0,
    {
        IdMap { slots: Vec::new(), id_counter: 0, _marker: core::marker::PhantomData }
    }

    /// Stores `value` under a fresh id and hands that id out.
    pub fn insert(&mut self, value: V) -> (r: K)
        requires
            old(self).wf(),
            old(self).id_counter < u32::MAX,
        ensures
            final(self).wf(),
            r.index_spec() == old(self).id_counter,
            final(self).slots@ == old(self).slots@.push(Some(value)),
            final(self).id_counter == old(self).id_counter + 1,
    {
        let id: K = K::create(self.id_counter);
        self.id_counter = self.id_counter + 1;
        self.slots.push(Some(value));
        id
    }

    /// The value stored under `id`, if any.
    pub fn get(&self, id: K) -> (r: Option<&V>)
        requires
            self.wf(),
        ensures
            match r {
                Some(v) => self.spec_get(id.index_spec()) == Some(*v),
                None => self.spec_get(id.index_spec()) is None,
            },
    {
        let i: u32 = id.get();
        if (i as usize) < self.slots.len() {
            match &self.slots[i as usize] {
                Some(v) => Some(v),
                None => None,
            }
        } else {
            None
        }
    }

    /// Overwrites the value stored under `id`; reports whether one was
    /// there.
    pub fn set(&mut self, id: K, value: V) -> (r: bool)
        requires
            old(self).wf(),
        ensures
            final(self).wf(),
            r == (old(self).spec_get(id.index_spec()) is Some),
            r ==> final(self).slots@ == old(self).slots@.update(
                id.index_spec(),
                Some(value),
            ),
            !r ==> *final(self) == *old(self),
            final(self).id_counter == old(self).id_counter,
    {
        let i: u32 = id.get();
        if (i as usize) < self.slots.len() {
            let occupied: bool = self.slots[i as usize].is_some();
            if occupied {
                self.slots.set(i as usize, Some(value));
                return true;
            }
        }
        false
    }
}

} // verus!
