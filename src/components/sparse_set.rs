use vstd::prelude::*;

use super::{ComponentStorage, Entry, SparseSet};

verus! {

impl<T> SparseSet<T> {
    /// How many distinct ids the set can hold: ids lie in `[0, capacity)`.
    pub closed spec fn capacity(&self) -> nat {
        self.sparse@.len()
    }

    /// The packed entries, in their current order.
    pub closed spec fn entries(&self) -> Seq<Entry<T>> {
        self.dense@
    }

    /// The position that the sparse table records for `id`.
    pub closed spec fn slot(&self, id: usize) -> Option<usize> {
        self.sparse@[id as int]
    }

    /// The two tables agree: every entry is recorded at its own position,
    /// and every recorded position holds an entry of that id.
    pub closed spec fn wf(&self) -> bool {
        &&& forall|i: int|
            0 <= i < self.dense@.len() ==> {
                let e = #[trigger] self.dense@[i].id;
                e < self.sparse@.len() && self.sparse@[e as int] == Some(i as usize)
            }
        &&& forall|id: int|
            0 <= id < self.sparse@.len() && (#[trigger] self.sparse@[id]) is Some ==> {
                let i = self.sparse@[id]->0;
                i < self.dense@.len() && self.dense@[i as int].id == id
            }
    }

    /// What `add(id, item)` makes of `before`: the map gains `id -> item`;
    /// a present id keeps its position, a new one is appended; no other
    /// id's position moves.
    pub open spec fn added(before: Self, after: Self, id: usize, item: T) -> bool {
        &&& after.wf()
        &&& after.capacity() == before.capacity()
        &&& after@ == before@.insert(id, item)
        &&& forall|k: usize|
            k != id && k < before.capacity() ==> #[trigger] after.slot(k) == before.slot(k)
        &&& before@.contains_key(id) ==> {
            &&& after.entries().len() == before.entries().len()
            &&& after.slot(id) == before.slot(id)
        }
        &&& !before@.contains_key(id) ==> {
            &&& after.entries() == before.entries().push(Entry { id, item })
            &&& after.slot(id) == Some(before.entries().len() as usize)
        }
    }

    /// What `delete(id)`, returning `r`, makes of `before`. An absent id
    /// changes nothing and gives `None`. A present id gives its value back;
    /// the last entry moves into the freed position, and the sparse table
    /// follows it.
    pub open spec fn deleted(before: Self, after: Self, id: usize, r: Option<T>) -> bool {
        &&& after.wf()
        &&& after.capacity() == before.capacity()
        &&& after@ == before@.remove(id)
        &&& r == (if before@.contains_key(id) { Some(before@[id]) } else { None })
        &&& after.slot(id) is None
        &&& before@.contains_key(id) ==> {
            let i = before.slot(id)->0 as int;
            let last = before.entries().last();
            &&& after.entries().len() == before.entries().len() - 1
            &&& after.entries() == before.entries().update(i, last).drop_last()
            &&& i != before.entries().len() - 1 ==> last.id != id
            &&& last.id != id ==> after.slot(last.id) == Some(i as usize)
        }
        &&& !before@.contains_key(id) ==> after == before
    }

    /// Makes an empty set for ids in `[0, size)`.
    pub fn new(size: usize) -> (r: Self)
        ensures
            r.wf(),
            r.capacity() == size,
            r@ == Map::<usize, T>::empty(),
            r.entries().len() == 0,
    {
        let dense: Vec<Entry<T>> = Vec::with_capacity(size);
        let mut sparse: Vec<Option<usize>> = Vec::new();
        let mut k: usize = 0;
        while k < size
            invariant
                k <= size,
                sparse@.len() == k,
                forall|j: int| 0 <= j < k ==> (#[trigger] sparse@[j]) is None,
            decreases size - k,
        {
            sparse.push(None);
            k += 1;
        }
        let r = SparseSet { dense, sparse };
        assert(r@ =~= Map::<usize, T>::empty());
        r
    }

    /// Stores `item` for `id`. An id that is already present keeps its
    /// position and has its value replaced; a new id is appended.
    pub fn add(&mut self, id: usize, item: T)
        requires
            old(self).wf(),
            id < old(self).capacity(),
        ensures
            Self::added(*old(self), *final(self), id, item),
            final(self)@.contains_key(id),
            final(self)@[id] == item,
    {
        match self.sparse[id] {
            Some(index) => {
                self.dense.set(index, Entry { id, item });
                assert(forall|i: int|
                    0 <= i < self.dense@.len() ==> #[trigger] self.dense@[i].id == old(self).dense@[i].id);
                assert(self@ =~= old(self)@.insert(id, item));
            },
            None => {
                let index = self.dense.len();
                self.dense.push(Entry { id, item });
                self.sparse.set(id, Some(index));
                assert forall|i: int| 0 <= i < self.dense@.len() implies {
                    let e = #[trigger] self.dense@[i].id;
                    e < self.sparse@.len() && self.sparse@[e as int] == Some(i as usize)
                } by {
                    if i < index {
                        assert(old(self).dense@[i].id != id);
                    }
                }
                assert forall|k: int|
                    0 <= k < self.sparse@.len() && (#[trigger] self.sparse@[k]) is Some implies {
                    let i = self.sparse@[k]->0;
                    i < self.dense@.len() && self.dense@[i as int].id == k
                } by {
                    if k != id {
                        assert(old(self).sparse@[k] is Some);
                    }
                }
                assert(self@ =~= old(self)@.insert(id, item));
            },
        }
    }

    /// Whether `id` has a value.
    pub fn contains(&self, id: usize) -> (r: bool)
        requires
            self.wf(),
            id < self.capacity(),
        ensures
            r == self@.contains_key(id),
    {
        self.sparse[id].is_some()
    }

    /// Removes every value; the capacity stays.
    pub fn clear(&mut self)
        requires
            old(self).wf(),
        ensures
            final(self).wf(),
            final(self).capacity() == old(self).capacity(),
            final(self)@ == Map::<usize, T>::empty(),
            final(self).entries().len() == 0,
            forall|id: usize| id < final(self).capacity() ==> #[trigger] final(self).slot(id) is None,
    {
        self.dense.clear();
        let n = self.sparse.len();
        let mut k: usize = 0;
        while k < n
            invariant
                k <= n,
                self.sparse@.len() == n,
                self.dense@.len() == 0,
                forall|j: int| 0 <= j < k ==> (#[trigger] self.sparse@[j]) is None,
            decreases n - k,
        {
            self.sparse.set(k, None);
            k += 1;
        }
        assert(self@ =~= Map::<usize, T>::empty());
    }

    /// Removes the value of `id` and returns it, or returns `None` when
    /// `id` has none. The last entry moves into the freed position, and the
    /// sparse table follows it.
    pub fn delete(&mut self, id: usize) -> (r: Option<T>)
        requires
            old(self).wf(),
            id < old(self).capacity(),
        ensures
            Self::deleted(*old(self), *final(self), id, r),
    {
        let index = match self.sparse[id] {
            Some(i) => i,
            None => {
                assert(self@ =~= old(self)@.remove(id));
                return None;
            },
        };
        let ghost last_id = self.dense@.last().id;
        let removed = self.dense.swap_remove(index);
        if index < self.dense.len() {
            let moved = self.dense[index].id;
            self.sparse.set(moved, Some(index));
        }
        self.sparse.set(id, None);
        assert forall|i: int| 0 <= i < self.dense@.len() implies {
            let e = #[trigger] self.dense@[i].id;
            e < self.sparse@.len() && self.sparse@[e as int] == Some(i as usize)
        } by {
            if i != index {
                assert(old(self).dense@[i].id != id);
            }
        }
        assert forall|k: int|
            0 <= k < self.sparse@.len() && (#[trigger] self.sparse@[k]) is Some implies {
            let i = self.sparse@[k]->0;
            i < self.dense@.len() && self.dense@[i as int].id == k
        } by {
            if k != id && k != last_id {
                let j = old(self).sparse@[k]->0;
                assert(old(self).dense@[j as int].id == k);
            }
        }
        assert(self@ =~= old(self)@.remove(id));
        Some(removed.item)
    }

    /// A mutable reference to the value of `id`, if it has one.
    pub fn get_mut(&mut self, id: usize) -> (r: Option<&mut T>)
        requires
            old(self).wf(),
            id < old(self).capacity(),
        ensures
            r is Some == old(self)@.contains_key(id),
            r matches Some(v) ==> {
                &&& *v == old(self)@[id]
                &&& final(self).wf()
                &&& final(self).capacity() == old(self).capacity()
                &&& final(self)@ == old(self)@.insert(id, *final(v))
                &&& final(self)@.dom() =~= old(self)@.dom()
                &&& final(self).entries().len() == old(self).entries().len()
            },
            r is None ==> *final(self) == *old(self),
    {
        let index = match self.sparse[id] {
            Some(i) => i,
            None => {
                return None;
            },
        };
        let entry = &mut self.dense[index];
        Some(&mut entry.item)
    }

    /// The value of `id`, if it has one.
    pub fn get(&self, id: usize) -> (r: Option<&T>)
        requires
            self.wf(),
            id < self.capacity(),
        ensures
            r is Some == self@.contains_key(id),
            r matches Some(v) ==> *v == self@[id],
    {
        let index = match self.sparse[id] {
            Some(i) => i,
            None => {
                return None;
            },
        };
        let entry = &self.dense[index];
        Some(&entry.item)
    }

    /// How many ids have a value.
    pub fn size(&self) -> (r: usize)
        requires
            self.wf(),
        ensures
            r == self.entries().len(),
    {
        self.dense.len()
    }

    /// The position of `id`'s entry among the packed entries, if it has one.
    pub fn index_of(&self, id: usize) -> (r: Option<usize>)
        requires
            self.wf(),
            id < self.capacity(),
        ensures
            r == self.slot(id),
            r is Some == self@.contains_key(id),
            r matches Some(i) ==> i < self.entries().len() && self.entries()[i as int].id == id,
    {
        self.sparse[id]
    }

    /// The packed entries, in their current order.
    pub fn dense(&self) -> (r: &Vec<Entry<T>>)
        ensures
            r@ == self.entries(),
    {
        &self.dense
    }
}

impl<T> ComponentStorage for SparseSet<T> {
    open spec fn inv(&self) -> bool {
        self.wf()
    }

    open spec fn bound(&self) -> nat {
        self.capacity()
    }

    open spec fn ids(&self) -> Set<usize> {
        self@.dom()
    }

    fn delete(&mut self, id: usize) {
        let _ = SparseSet::delete(self, id);
    }
}

impl<T> View for SparseSet<T> {
    type V = Map<usize, T>;

    /// Each id that the sparse table records, with the item of its entry.
    closed spec fn view(&self) -> Map<usize, T> {
        Map::new(
            |id: usize| id < self.sparse@.len() && self.sparse@[id as int] is Some,
            |id: usize| self.dense@[self.sparse@[id as int]->0 as int].item,
        )
    }
}

/// Once `add(id, v)` has run, `id` is present and `get(id)` gives `v`.
pub proof fn lemma_add_then_get<T>(s0: SparseSet<T>, s1: SparseSet<T>, id: usize, v: T)
    requires
        s0.wf(),
        id < s0.capacity(),
        SparseSet::added(s0, s1, id, v),
    ensures
        s1@.contains_key(id),
        s1@[id] == v,
{
}

/// Adding an id a second time replaces its value and keeps the size: the
/// set never holds two entries of one id.
pub proof fn lemma_upsert<T>(
    s0: SparseSet<T>,
    s1: SparseSet<T>,
    s2: SparseSet<T>,
    id: usize,
    v1: T,
    v2: T,
)
    requires
        s0.wf(),
        id < s0.capacity(),
        SparseSet::added(s0, s1, id, v1),
        SparseSet::added(s1, s2, id, v2),
    ensures
        s2.entries().len() == s1.entries().len(),
        s2@[id] == v2,
        s2@ == s1@.insert(id, v2),
{
}

/// Deleting a present id removes it, shrinks the size by one, and leaves
/// every other id with the value it had.
pub proof fn lemma_delete_present<T>(s0: SparseSet<T>, s1: SparseSet<T>, id: usize, r: Option<T>)
    requires
        s0.wf(),
        id < s0.capacity(),
        s0@.contains_key(id),
        SparseSet::deleted(s0, s1, id, r),
    ensures
        !s1@.contains_key(id),
        s1.entries().len() == s0.entries().len() - 1,
        r == Some(s0@[id]),
        forall|k: usize|
            k != id ==> #[trigger] s1@.contains_key(k) == s0@.contains_key(k) && (s1@.contains_key(k)
                ==> s1@[k] == s0@[k]),
{
}

/// Swap-removal: with `a` added and then `b`, deleting `a` keeps `b` and
/// its value, and `b` now sits in the position that `a` left.
pub proof fn lemma_swap_removal<T>(
    s0: SparseSet<T>,
    s1: SparseSet<T>,
    s2: SparseSet<T>,
    s3: SparseSet<T>,
    a: usize,
    b: usize,
    va: T,
    vb: T,
    r: Option<T>,
)
    requires
        s0.wf(),
        a < s0.capacity(),
        b < s0.capacity(),
        a != b,
        !s0@.contains_key(a),
        !s0@.contains_key(b),
        SparseSet::added(s0, s1, a, va),
        SparseSet::added(s1, s2, b, vb),
        SparseSet::deleted(s2, s3, a, r),
    ensures
        r == Some(va),
        s3@.contains_key(b),
        s3@[b] == vb,
        s3.slot(b) == s1.slot(a),
        s3.slot(b) == Some(s0.entries().len() as usize),
{
    assert(s2.entries().last() == Entry { id: b, item: vb });
}

/// What the consistency of a set gives its clients: an id is present
/// exactly when the sparse table records a position for it; that position
/// holds the id's entry, whose item is the id's value; the entries number
/// the present ids, and no more than the capacity.
pub proof fn lemma_wf_facts<T>(s: SparseSet<T>)
    requires
        s.wf(),
    ensures
        forall|id: usize|
            #[trigger] s@.contains_key(id) == (id < s.capacity() && s.slot(id) is Some),
        forall|id: usize|
            #[trigger] s@.contains_key(id) ==> {
                let i = s.slot(id)->0 as int;
                &&& 0 <= i < s.entries().len()
                &&& s.entries()[i].id == id
                &&& s@[id] == s.entries()[i].item
            },
        forall|i: int|
            0 <= i < s.entries().len() ==> {
                let e = #[trigger] s.entries()[i];
                &&& e.id < s.capacity()
                &&& s.slot(e.id) == Some(i as usize)
                &&& s@.contains_key(e.id)
                &&& s@[e.id] == e.item
            },
        s.entries().len() == s@.dom().len(),
        s.entries().len() <= s.capacity(),
{
    let ids = s.entries().map_values(|e: Entry<T>| e.id);
    assert(s.dense@.len() == s.dense.len());
    assert(s.sparse@.len() == s.sparse.len());
    assert forall|i: int, j: int| 0 <= i < ids.len() && 0 <= j < ids.len() && i != j implies ids[i]
        != ids[j] by {
        assert(s.dense@[i].id == ids[i] && s.dense@[j].id == ids[j]);
        assert(s.sparse@[ids[i] as int] == Some(i as usize));
        assert(s.sparse@[ids[j] as int] == Some(j as usize));
    }
    assert(ids.no_duplicates());
    ids.unique_seq_to_set();
    assert forall|id: usize| #[trigger] s@.dom().contains(id) implies ids.to_set().contains(id) by {
        let i = s.slot(id)->0 as int;
        assert(ids[i] == id);
    }
    assert forall|id: usize| #[trigger] ids.to_set().contains(id) implies s@.dom().contains(id) by {
        let i = choose|i: int| 0 <= i < ids.len() && ids[i] == id;
        assert(s.dense@[i].id == id);
    }
    assert(ids.to_set() =~= s@.dom());
    let all = Seq::new(s.capacity(), |k: int| k as usize);
    assert forall|i: int, j: int| 0 <= i < all.len() && 0 <= j < all.len() && i != j implies all[i]
        != all[j] by {}
    assert(all.no_duplicates());
    all.unique_seq_to_set();
    assert forall|id: usize| #[trigger] s@.dom().contains(id) implies all.to_set().contains(id) by {
        assert(all[id as int] == id);
    }
    vstd::set_lib::lemma_len_subset(s@.dom(), all.to_set());
}

/// Swap-removal: when `b`'s entry is the last one and `a` is deleted, `b`
/// keeps its value and moves into the position that `a` left.
pub proof fn lemma_swap_last<T>(s0: SparseSet<T>, s1: SparseSet<T>, a: usize, b: usize, r: Option<T>)
    requires
        s0.wf(),
        a < s0.capacity(),
        b < s0.capacity(),
        a != b,
        s0@.contains_key(a),
        s0.slot(b) == Some((s0.entries().len() - 1) as usize),
        SparseSet::deleted(s0, s1, a, r),
    ensures
        s1@.contains_key(b),
        s1@[b] == s0@[b],
        s1.slot(b) == s0.slot(a),
        s1.entries()[s0.slot(a)->0 as int].id == b,
{
    lemma_wf_facts(s0);
    let i = s0.slot(a)->0 as int;
    assert(s0.entries()[i].id == a);
    let n = s0.entries().len() - 1;
    assert(s0.wf() && 0 <= b < s0.capacity() && s0.slot(b) is Some);
    assert(s0@.contains_key(b));
    assert(s0.entries()[n].id == b);
    assert(s0.entries().last().id == b);
    assert(i != n);
}

/// Deleting an absent id returns `None` and changes nothing, however often
/// it is repeated.
pub proof fn lemma_delete_absent<T>(s0: SparseSet<T>, s1: SparseSet<T>, id: usize, r: Option<T>)
    requires
        s0.wf(),
        id < s0.capacity(),
        !s0@.contains_key(id),
        SparseSet::deleted(s0, s1, id, r),
    ensures
        r is None,
        s1 == s0,
        s1.entries().len() == s0.entries().len(),
        s1@ == s0@,
{
}

} // verus!
