use vstd::prelude::*;

pub mod erased;
pub mod sparse_set;

verus! {

/// What the registry needs of a per-type storage without knowing its
/// component type: which ids it holds, and a way to evict one of them.
pub trait ComponentStorage {
    /// The storage's internal consistency.
    spec fn inv(&self) -> bool;

    /// The largest id it can hold, plus one.
    spec fn bound(&self) -> nat;

    /// The ids that currently have a component here.
    spec fn ids(&self) -> Set<usize>;

    /// Removes the component of `id`, if there is one.
    fn delete(&mut self, id: usize)
        requires
            old(self).inv(),
            id < old(self).bound(),
        ensures
            final(self).inv(),
            final(self).bound() == old(self).bound(),
            final(self).ids() == old(self).ids().remove(id),
    ;
}

/// One slot of the packed array: an entity id and its component.
#[derive(Debug)]
pub struct Entry<T> {
    pub id: usize,
    pub item: T,
}

/// A fixed-capacity map from entity ids in `[0, capacity)` to components,
/// stored as a packed `dense` array of entries and a `sparse` table giving,
/// for each id, the position of its entry in `dense`.
#[derive(Debug)]
pub struct SparseSet<T> {
    dense: Vec<Entry<T>>,
    sparse: Vec<Option<usize>>,
}

} // verus!
