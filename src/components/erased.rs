use std::any::Any;
use vstd::prelude::*;

use super::SparseSet;

verus! {

/// A sparse set whose component type is known only at run time: it is held
/// as `dyn Any`, together with the eviction routine of its concrete type.
#[verifier::external_body]
pub struct ErasedStorage {
    set: Box<dyn Any>,
    evict: Box<dyn Fn(&mut dyn Any, usize)>,
}

/// The ids that hold a component in an erased sparse set.
pub uninterp spec fn erased_ids(s: ErasedStorage) -> Set<usize>;

/// The capacity of an erased sparse set.
pub uninterp spec fn erased_bound(s: ErasedStorage) -> nat;

impl ErasedStorage {
    /// Relies on `Box<dyn Any>` keeping the set unchanged behind its erased
    /// type; `evict` recovers `SparseSet<T>` with `<dyn Any>::downcast_mut`,
    /// which succeeds on the value boxed here, and runs its `delete`.
    #[verifier::external_body]
    pub(crate) fn erase<T: 'static>(set: SparseSet<T>) -> (r: ErasedStorage)
        requires
            set.wf(),
        ensures
            erased_ids(r) == set@.dom(),
            erased_bound(r) == set.capacity(),
    {
        ErasedStorage {
            set: Box::new(set),
            evict: Box::new(|s: &mut dyn Any, id: usize| {
                if let Some(set) = s.downcast_mut::<SparseSet<T>>() {
                    let _ = SparseSet::delete(set, id);
                }
            }),
        }
    }

    /// Relies on the routine stored by `erase`, which runs the verified
    /// `SparseSet::delete` on the concrete set: the id leaves the set, and
    /// an absent id changes nothing.
    #[verifier::external_body]
    pub(crate) fn evict(&mut self, id: usize)
        requires
            id < erased_bound(*old(self)),
        ensures
            erased_ids(*final(self)) == erased_ids(*old(self)).remove(id),
            erased_bound(*final(self)) == erased_bound(*old(self)),
            !erased_ids(*old(self)).contains(id) ==> *final(self) == *old(self),
    {
        (self.evict)(&mut *self.set, id)
    }

    /// Relies on `<dyn Any>::downcast_ref`: it yields the boxed set exactly
    /// when `T` is the component type it was erased with.
    #[verifier::external_body]
    pub(crate) fn downcast_ref<T: 'static>(&self) -> (r: Option<&SparseSet<T>>)
        ensures
            r matches Some(s) ==> {
                &&& s.wf()
                &&& s@.dom() == erased_ids(*self)
                &&& s.capacity() == erased_bound(*self)
            },
    {
        self.set.downcast_ref::<SparseSet<T>>()
    }

    /// Relies on `<dyn Any>::downcast_mut`: it yields the boxed set exactly
    /// when `T` is the component type it was erased with, and leaves the
    /// box untouched otherwise.
    #[verifier::external_body]
    pub(crate) fn downcast_mut<T: 'static>(&mut self) -> (r: Option<&mut SparseSet<T>>)
        ensures
            r matches Some(s) ==> {
                &&& s.wf()
                &&& s@.dom() == erased_ids(*old(self))
                &&& s.capacity() == erased_bound(*old(self))
                &&& erased_ids(*final(self)) == final(s)@.dom()
                &&& erased_bound(*final(self)) == final(s).capacity()
            },
            r is None ==> *final(self) == *old(self),
    {
        self.set.downcast_mut::<SparseSet<T>>()
    }
}

} // verus!
