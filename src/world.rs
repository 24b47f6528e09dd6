use std::any::TypeId;
use vstd::prelude::*;

use crate::components::erased::{erased_bound, erased_ids, ErasedStorage};
use crate::components::SparseSet;
use crate::entity::EntityBuilder;

verus! {

#[verifier::external_type_specification]
#[verifier::external_body]
pub struct ExTypeId(TypeId);

/// Relies on `TypeId::of`: the run-time identity of the component type `T`.
#[verifier::external_body]
fn type_key<T: 'static>() -> (r: TypeId) {
    TypeId::of::<T>()
}

/// Relies on `TypeId`'s `==`: two keys compare equal exactly when they are
/// the same key.
#[verifier::external_body]
fn same_key(a: &TypeId, b: &TypeId) -> (r: bool)
    ensures
        r == (*a == *b),
{
    *a == *b
}

/// The registry: one sparse set per registered component type, each keyed by
/// the type's run-time identity, and the counter that issues entity ids.
pub struct World {
    size: usize,
    current_id: usize,
    components: Vec<(TypeId, ErasedStorage)>,
}

impl World {
    /// The capacity of every sparse set that the registry makes.
    pub closed spec fn capacity(&self) -> nat {
        self.size as nat
    }

    /// The id that the next `spawn` issues.
    pub closed spec fn next_id(&self) -> nat {
        self.current_id as nat
    }

    /// The keys of the registered component types, in order of registration.
    pub closed spec fn keys(&self) -> Seq<TypeId> {
        self.components@.map_values(|p: (TypeId, ErasedStorage)| p.0)
    }

    /// The ids that hold a component in the storage of the `k`-th
    /// registered type.
    pub closed spec fn ids_of(&self, k: int) -> Set<usize> {
        erased_ids(self.components@[k].1)
    }

    /// The storage of the `k`-th registered type.
    pub closed spec fn storage(&self, k: int) -> ErasedStorage {
        self.components@[k].1
    }

    /// Whether `id` holds a component of any registered type.
    pub open spec fn holds(&self, id: usize) -> bool {
        exists|k: int| 0 <= k < self.keys().len() && (#[trigger] self.ids_of(k)).contains(id)
    }

    /// Same capacity, counter and keys as `other`, and the same ids in every
    /// storage.
    pub open spec fn same_shape(&self, other: World) -> bool {
        &&& self.capacity() == other.capacity()
        &&& self.next_id() == other.next_id()
        &&& self.keys() == other.keys()
        &&& forall|k: int| 0 <= k < self.keys().len() ==> #[trigger] self.ids_of(k) == other.ids_of(k)
    }

    /// What `despawn(id)` makes of `before`: the same registry, with `id`
    /// gone from every storage.
    pub open spec fn despawned(before: World, after: World, id: usize) -> bool {
        &&& after.wf()
        &&& after.capacity() == before.capacity()
        &&& after.next_id() == before.next_id()
        &&& after.keys() == before.keys()
        &&& forall|k: int|
            0 <= k < before.keys().len() ==> #[trigger] after.ids_of(k) == before.ids_of(k).remove(id)
    }

    /// `after` is `before` with `id` added to exactly one storage: the
    /// outcome of storing a component of a registered type for `id`.
    pub open spec fn attached(before: World, after: World, id: usize) -> bool {
        &&& after.wf()
        &&& after.capacity() == before.capacity()
        &&& after.next_id() == before.next_id()
        &&& after.keys() == before.keys()
        &&& exists|k: int|
            {
                &&& 0 <= k < before.keys().len()
                &&& #[trigger] after.ids_of(k) == before.ids_of(k).insert(id)
                &&& forall|j: int|
                    0 <= j < before.keys().len() && j != k ==> #[trigger] after.ids_of(j)
                        == before.ids_of(j)
            }
    }

    /// Keys are unique and every storage has the registry's capacity.
    pub closed spec fn wf(&self) -> bool {
        &&& forall|i: int, j: int|
            0 <= i < j < self.components@.len() ==> (#[trigger] self.components@[i]).0
                != (#[trigger] self.components@[j]).0
        &&& forall|i: int|
            0 <= i < self.components@.len() ==> erased_bound(#[trigger] self.components@[i].1)
                == self.size
    }

    /// A registry with no component types, whose first entity gets id 0.
    pub fn new(size: usize) -> (r: Self)
        ensures
            r.wf(),
            r.capacity() == size,
            r.next_id() == 0,
            r.keys().len() == 0,
    {
        World { size, current_id: 0, components: Vec::new() }
    }

    /// The position of the storage keyed `key`, if there is one.
    fn position(&self, key: &TypeId) -> (r: Option<usize>)
        ensures
            r matches Some(i) ==> i < self.keys().len() && self.keys()[i as int] == *key,
            r is None ==> !self.keys().contains(*key),
    {
        let mut i: usize = 0;
        while i < self.components.len()
            invariant
                i <= self.components@.len(),
                forall|j: int| 0 <= j < i ==> self.components@[j].0 != *key,
            decreases self.components.len() - i,
        {
            if same_key(&self.components[i].0, key) {
                return Some(i);
            }
            i += 1;
        }
        proof {
            if self.keys().contains(*key) {
                let j = choose|j: int| 0 <= j < self.keys().len() && self.keys()[j] == *key;
                assert(self.components@[j].0 == *key);
            }
        }
        None
    }

    /// The storage at position `i`, mutably; its key stays.
    fn storage_at_mut(&mut self, i: usize) -> (r: &mut ErasedStorage)
        requires
            i < old(self).keys().len(),
        ensures
            *r == old(self).components@[i as int].1,
            erased_ids(*r) == old(self).ids_of(i as int),
            final(self).size == old(self).size,
            final(self).current_id == old(self).current_id,
            final(self).components@ =~= old(self).components@.update(
                i as int,
                (old(self).components@[i as int].0, *final(r)),
            ),
            final(self).keys() =~= old(self).keys(),
            final(self).ids_of(i as int) == erased_ids(*final(r)),
            forall|j: int| 0 <= j < old(self).keys().len() && j != i
                ==> #[trigger] final(self).ids_of(j) == old(self).ids_of(j),
    {
        &mut self.components[i].1
    }

    /// Issues the next entity id and returns a builder that attaches its
    /// components. Ids are never reused.
    pub fn spawn(&mut self) -> (r: EntityBuilder<'_>)
        requires
            old(self).wf(),
            old(self).next_id() < usize::MAX,
        ensures
            r.id() == old(self).next_id(),
            r.world().wf(),
            r.world().next_id() == old(self).next_id() + 1,
            r.world().capacity() == old(self).capacity(),
            r.world().keys() == old(self).keys(),
            forall|k: int| 0 <= k < old(self).keys().len()
                ==> #[trigger] r.world().ids_of(k) == old(self).ids_of(k),
            *final(self) == *final(r.world),
    {
        let spawned_entity_id = self.current_id;
        self.current_id = self.current_id + 1;
        EntityBuilder::new(spawned_entity_id, self)
    }

    /// Removes every component of `id`, of every registered type.
    pub fn despawn(&mut self, id: usize)
        requires
            old(self).wf(),
            old(self).keys().len() > 0 ==> id < old(self).capacity(),
        ensures
            Self::despawned(*old(self), *final(self), id),
            !final(self).holds(id),
            forall|k: int| 0 <= k < old(self).keys().len() && !old(self).ids_of(k).contains(id)
                ==> #[trigger] final(self).storage(k) == old(self).storage(k),
    {
        let mut i: usize = 0;
        while i < self.components.len()
            invariant
                self.wf(),
                self.size == old(self).size,
                self.current_id == old(self).current_id,
                self.components@.len() == old(self).components@.len(),
                i <= self.components@.len(),
                self.components@.len() > 0 ==> id < self.size,
                forall|j: int| 0 <= j < self.components@.len()
                    ==> (#[trigger] self.components@[j]).0 == old(self).components@[j].0,
                forall|j: int| 0 <= j < i
                    ==> #[trigger] erased_ids(self.components@[j].1)
                        == erased_ids(old(self).components@[j].1).remove(id),
                forall|j: int| 0 <= j < i && !erased_ids(old(self).components@[j].1).contains(id)
                    ==> #[trigger] self.components@[j].1 == old(self).components@[j].1,
                forall|j: int| i <= j < self.components@.len()
                    ==> #[trigger] self.components@[j] == old(self).components@[j],
            decreases self.components.len() - i,
        {
            self.components[i].1.evict(id);
            i += 1;
        }
        assert(self.keys() =~= old(self).keys());
    }

    /// The sparse set of component type `T`, if `T` is registered.
    pub fn get_storage<T: 'static>(&self) -> (r: Option<&SparseSet<T>>)
        requires
            self.wf(),
        ensures
            self.keys().len() == 0 ==> r is None,
            r matches Some(s) ==> {
                &&& s.wf()
                &&& s.capacity() == self.capacity()
                &&& exists|k: int| 0 <= k < self.keys().len() && s@.dom() == #[trigger] self.ids_of(k)
            },
    {
        let key = type_key::<T>();
        match self.position(&key) {
            Some(i) => {
                let r = self.components[i].1.downcast_ref::<T>();
                proof {
                    assert(self.ids_of(i as int) == erased_ids(self.components@[i as int].1));
                }
                r
            },
            None => None,
        }
    }

    /// The sparse set of component type `T`, mutably, if `T` is registered.
    /// Whatever the caller does with it, the other storages, the keys and
    /// the counter stay as they are.
    pub fn get_storage_mut<T: 'static>(&mut self) -> (r: Option<&mut SparseSet<T>>)
        requires
            old(self).wf(),
        ensures
            old(self).keys().len() == 0 ==> r is None,
            final(self).capacity() == old(self).capacity(),
            final(self).next_id() == old(self).next_id(),
            final(self).keys() == old(self).keys(),
            r is None ==> final(self).wf() && final(self).same_shape(*old(self)),
            r matches Some(s) ==> {
                &&& s.wf()
                &&& s.capacity() == old(self).capacity()
                &&& final(s).capacity() == s.capacity() ==> final(self).wf()
                &&& final(s)@.dom() == s@.dom() ==> final(self).same_shape(*old(self))
                &&& exists|k: int| {
                    &&& 0 <= k < old(self).keys().len()
                    &&& s@.dom() == #[trigger] old(self).ids_of(k)
                    &&& final(self).ids_of(k) == final(s)@.dom()
                    &&& forall|j: int| 0 <= j < old(self).keys().len() && j != k
                        ==> #[trigger] final(self).ids_of(j) == old(self).ids_of(j)
                }
            },
    {
        let key = type_key::<T>();
        match self.position(&key) {
            Some(i) => {
                let storage = self.storage_at_mut(i);
                storage.downcast_mut::<T>()
            },
            None => None,
        }
    }

    /// The component of type `T` of `id`; `None` when `T` is not registered,
    /// when `id` has no such component, or when `id` is beyond the capacity.
    pub fn get<T: 'static>(&self, id: usize) -> (r: Option<&T>)
        requires
            self.wf(),
        ensures
            self.keys().len() == 0 ==> r is None,
            id >= self.capacity() ==> r is None,
            r is Some ==> self.holds(id),
    {
        if id >= self.size {
            return None;
        }
        match self.get_storage::<T>() {
            Some(storage) => storage.get(id),
            None => None,
        }
    }

    /// The component of type `T` of `id`, mutably; `None` in the same cases
    /// as `get`. Writing through it changes no id's membership.
    pub fn get_mut<T: 'static>(&mut self, id: usize) -> (r: Option<&mut T>)
        requires
            old(self).wf(),
        ensures
            old(self).keys().len() == 0 ==> r is None,
            id >= old(self).capacity() ==> r is None,
            r is Some ==> old(self).holds(id),
            final(self).wf(),
            final(self).same_shape(*old(self)),
    {
        if id >= self.size {
            return None;
        }
        match self.get_storage_mut::<T>() {
            Some(storage) => storage.get_mut(id),
            None => None,
        }
    }

    /// Adds a sparse set for component type `T`, unless `T` already has one.
    pub fn register<T: 'static>(self) -> (r: Self)
        requires
            self.wf(),
        ensures
            r.wf(),
            r.capacity() == self.capacity(),
            r.next_id() == self.next_id(),
            self.keys().is_prefix_of(r.keys()),
            r.keys().len() <= self.keys().len() + 1,
            forall|k: int| 0 <= k < self.keys().len()
                ==> #[trigger] r.ids_of(k) == self.ids_of(k),
            r.keys().len() > 0,
            r.keys().len() == self.keys().len() ==> r == self,
            r.keys().len() == self.keys().len() + 1 ==> {
                &&& !self.keys().contains(r.keys().last())
                &&& r.ids_of(self.keys().len() as int) == Set::<usize>::empty()
            },
    {
        let mut world = self;
        let key = type_key::<T>();
        if world.position(&key).is_none() {
            let storage = ErasedStorage::erase(SparseSet::<T>::new(world.size));
            proof {
                assert forall|j: int| 0 <= j < world.components@.len() implies
                    world.components@[j].0 != key by {
                    assert(world.keys()[j] == world.components@[j].0);
                }
            }
            world.components.push((key, storage));
            proof {
                assert(world.keys() =~= self.keys().push(key));
                assert(erased_ids(storage) =~= Set::<usize>::empty());
            }
        }
        world
    }

    /// Stores `value` as the component of type `T` of `id`, replacing one
    /// that `id` already has, and returns `true`; returns `false`, leaving
    /// the registry as it is, when `T` is not registered.
    pub fn create<T: 'static>(&mut self, id: usize, value: T) -> (r: bool)
        requires
            old(self).wf(),
            id < old(self).capacity(),
        ensures
            final(self).wf(),
            final(self).capacity() == old(self).capacity(),
            final(self).next_id() == old(self).next_id(),
            final(self).keys() == old(self).keys(),
            old(self).keys().len() == 0 ==> !r,
            !r ==> final(self).same_shape(*old(self)),
            r ==> Self::attached(*old(self), *final(self), id),
    {
        let key = type_key::<T>();
        if let Some(i) = self.position(&key) {
            let storage = self.storage_at_mut(i);
            let stored = if let Some(set) = storage.downcast_mut::<T>() {
                set.add(id, value);
                true
            } else {
                false
            };
            assert(stored ==> self.ids_of(i as int) == old(self).ids_of(i as int).insert(id));
            assert(!stored ==> self.ids_of(i as int) == old(self).ids_of(i as int));
            stored
        } else {
            false
        }
    }

    /// How many component types are registered.
    pub fn type_count(&self) -> (r: usize)
        ensures
            r == self.keys().len(),
    {
        self.components.len()
    }

    /// Whether component type `T` is registered.
    pub fn is_registered<T: 'static>(&self) -> (r: bool)
        ensures
            self.keys().len() == 0 ==> !r,
    {
        let key = type_key::<T>();
        self.position(&key).is_some()
    }
}

/// Despawning an id that holds no component leaves every storage exactly
/// as it was; so a second `despawn` of the same id changes nothing.
pub proof fn lemma_despawn_absent(w0: World, w1: World, id: usize)
    requires
        w0.wf(),
        !w0.holds(id),
        World::despawned(w0, w1, id),
        forall|k: int| 0 <= k < w0.keys().len() && !w0.ids_of(k).contains(id)
            ==> #[trigger] w1.storage(k) == w0.storage(k),
    ensures
        w1.keys() == w0.keys(),
        w1.next_id() == w0.next_id(),
        w1.capacity() == w0.capacity(),
        forall|k: int| 0 <= k < w0.keys().len() ==> #[trigger] w1.storage(k) == w0.storage(k),
{
    assert forall|k: int| 0 <= k < w0.keys().len() implies #[trigger] w1.storage(k) == w0.storage(k) by {
        assert(!w0.ids_of(k).contains(id));
    }
}

/// After `despawn(id)`, `id` has no component of any registered type,
/// including the types it never had one of; so `get` finds none.
pub proof fn lemma_despawn_clears(w0: World, w1: World, id: usize)
    requires
        w0.wf(),
        World::despawned(w0, w1, id),
    ensures
        !w1.holds(id),
        forall|k: int| 0 <= k < w1.keys().len() ==> !(#[trigger] w1.ids_of(k)).contains(id),
        forall|k: int, j: usize|
            0 <= k < w1.keys().len() && j != id ==> #[trigger] w1.ids_of(k).contains(j) == w0.ids_of(
                k,
            ).contains(j),
{
}

/// `worlds[n]` is the registry before the `n`-th of a run of spawns, which
/// issued `ids[n]` and left `worlds[n + 1]`.
pub open spec fn issued_in_turn(worlds: Seq<World>, ids: Seq<usize>) -> bool {
    &&& worlds.len() == ids.len() + 1
    &&& forall|n: int|
        0 <= n < ids.len() ==> {
            &&& #[trigger] ids[n] == worlds[n].next_id()
            &&& worlds[n + 1].next_id() == worlds[n].next_id() + 1
        }
}

/// After `i` spawns the counter stands `i` past where it began.
proof fn lemma_counter_after(worlds: Seq<World>, ids: Seq<usize>, i: int)
    requires
        issued_in_turn(worlds, ids),
        0 <= i <= ids.len(),
    ensures
        worlds[i].next_id() == worlds[0].next_id() + i,
    decreases i,
{
    if i > 0 {
        lemma_counter_after(worlds, ids, i - 1);
        assert(ids[i - 1] == worlds[i - 1].next_id());
    }
}

/// Ids issued by successive spawns are the counter's start plus 0, 1, 2,
/// ...: distinct and strictly increasing.
pub proof fn lemma_spawn_ids_increase(worlds: Seq<World>, ids: Seq<usize>)
    requires
        issued_in_turn(worlds, ids),
    ensures
        forall|i: int| 0 <= i < ids.len() ==> #[trigger] ids[i] == worlds[0].next_id() + i,
        forall|i: int, j: int| 0 <= i < j < ids.len() ==> #[trigger] ids[i] < #[trigger] ids[j],
{
    assert forall|i: int| 0 <= i < ids.len() implies #[trigger] ids[i] == worlds[0].next_id() + i by {
        lemma_counter_after(worlds, ids, i);
    }
    assert forall|i: int, j: int| 0 <= i < j < ids.len() implies #[trigger] ids[i] < #[trigger] ids[j] by {
        lemma_counter_after(worlds, ids, i);
        lemma_counter_after(worlds, ids, j);
    }
}

} // verus!
