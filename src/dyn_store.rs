use vstd::prelude::*;
use vstd::set_lib::{lemma_int_range, lemma_len_subset, set_int_range};

verus! {

/// Reference to a slot of a `DynStore`: valid only while the slot still
/// carries the generation it was issued with.
#[derive(Clone, Copy, Debug, PartialEq, Eq, Structural)]
pub struct SlotHandle {
    pub index: usize,
    pub generation: u64,
}

/// Smallest number of slots the store grows to.
pub const MIN_SLOTS: usize = 64;

/// Generational slot arena: O(1) insert, remove and look-up through
/// handles that never resolve to a later occupant of their slot.
#[verifier::reject_recursive_types(T)]
pub struct DynStore<T: Default> {
    store: Vec<T>,
    free: Vec<bool>,
    generation: Vec<u64>,
}

impl<T: Default> DynStore<T> {
    pub closed spec fn wf(&self) -> bool {
        &&& self.free@.len() == self.store@.len()
        &&& self.generation@.len() == self.store@.len()
        &&& self.store@.len() <= usize::MAX
    }

    /// Number of slots, free ones included.
    pub closed spec fn slot_count(&self) -> nat {
        self.store@.len()
    }

    /// The handle that slot `i` would be read through now.
    pub closed spec fn handle_at(&self, i: int) -> SlotHandle {
        SlotHandle { index: i as usize, generation: self.generation@[i] }
    }

    pub closed spec fn is_live(&self, h: SlotHandle) -> bool {
        &&& h.index < self.store@.len()
        &&& !self.free@[h.index as int]
        &&& self.generation@[h.index as int] == h.generation
    }

    /// `h` has been handed out by this store at some point (it may be
    /// stale by now).
    pub closed spec fn issued(&self, h: SlotHandle) -> bool {
        h.index < self.store@.len() && h.generation <= self.generation@[h.index as int]
    }

    /// The live handles and what they refer to.
    pub closed spec fn view(&self) -> Map<SlotHandle, T> {
        Map::new(|h: SlotHandle| self.is_live(h), |h: SlotHandle| self.store@[h.index as int])
    }

    /// Some free slot can still be reused: its generation has not reached
    /// the maximum.
    pub closed spec fn has_reusable_slot(&self) -> bool {
        exists|j: int|
            0 <= j < self.store@.len() && #[trigger] self.free@[j] && self.generation@[j]
                < u64::MAX
    }

    /// Some free slot has reached the largest generation, so it is never
    /// handed out again.
    pub closed spec fn has_retired_slot(&self) -> bool {
        exists|j: int|
            0 <= j < self.store@.len() && #[trigger] self.free@[j] && self.generation@[j]
                == u64::MAX
    }

    /// Some live handle refers to slot `j`.
    pub open spec fn slot_in_use(&self, j: int) -> bool {
        exists|h: SlotHandle| #[trigger] self@.contains_key(h) && h.index == j
    }

    /// `self` is `before` after one insertion of `v` that returned `h`.
    pub open spec fn added_to(&self, before: Self, h: SlotHandle, v: T) -> bool {
        &&& self.wf()
        &&& !before.issued(h)
        &&& !before@.contains_key(h)
        &&& self.issued(h)
        &&& self@ == before@.insert(h, v)
        &&& self@.dom().finite()
        &&& self@.len() == before@.len() + 1
        &&& forall|g: SlotHandle| #[trigger] before.issued(g) ==> self.issued(g)
    }

    /// `self` is `before` after the removal of the live handle `h`.
    pub open spec fn deleted_from(&self, before: Self, h: SlotHandle) -> bool {
        &&& self.wf()
        &&& self@ == before@.remove(h)
        &&& self@.dom().finite()
        &&& self@.len() + 1 == before@.len()
        &&& self.slot_count() == before.slot_count()
        &&& h.generation < u64::MAX ==> self.has_reusable_slot()
        &&& h.generation < u64::MAX && !before.has_retired_slot() ==> !self.has_retired_slot()
        &&& forall|g: SlotHandle| #[trigger] before.issued(g) ==> self.issued(g)
    }

    proof fn lemma_view_finite(&self)
        requires
            self.wf(),
        ensures
            self@.dom().finite(),
    {
        let n = self.store@.len() as int;
        let f = |i: int| self.handle_at(i);
        let all = set_int_range(0, n).map(f);
        lemma_int_range(0, n);
        set_int_range(0, n).lemma_map_finite(f);
        assert forall|h: SlotHandle| self@.dom().contains(h) implies all.contains(h) by {
            assert(set_int_range(0, n).contains(h.index as int));
            assert(f(h.index as int) == h);
        }
        lemma_len_subset(self@.dom(), all);
    }

    /// At most one live handle refers to each slot.
    pub proof fn lemma_one_live_handle_per_slot(&self, h1: SlotHandle, h2: SlotHandle)
        requires
            self.wf(),
            self@.contains_key(h1),
            self@.contains_key(h2),
            h1.index == h2.index,
        ensures
            h1 == h2,
    {
    }

    /// A live handle refers to a slot of the store and has been issued by
    /// it.
    pub proof fn lemma_live_issued(&self, h: SlotHandle)
        requires
            self.wf(),
            self@.contains_key(h),
        ensures
            h.index < self.slot_count(),
            self.issued(h),
            h == self.handle_at(h.index as int),
    {
    }

    /// Slot `j` is in use exactly when it is not free.
    proof fn lemma_in_use_iff_taken(&self, j: int)
        requires
            self.wf(),
            0 <= j < self.slot_count(),
        ensures
            self.slot_in_use(j) <==> !self.free@[j],
    {
        if !self.free@[j] {
            assert(self@.contains_key(self.handle_at(j)));
        }
    }

    /// An empty store with room reserved for `capacity` slots.
    pub fn new(capacity: usize) -> (r: Self)
        ensures
            r.wf(),
            r@ == Map::<SlotHandle, T>::empty(),
            r.slot_count() == 0,
            !r.has_reusable_slot(),
            !r.has_retired_slot(),
            forall|h: SlotHandle| !r.issued(h),
    {
        let r = Self {
            store: Vec::with_capacity(capacity),
            free: Vec::with_capacity(capacity),
            generation: Vec::with_capacity(capacity),
        };
        assert(r@ =~= Map::empty());
        r
    }

    pub fn get_mut(&mut self, h: SlotHandle) -> (r: Option<&mut T>)
        requires
            old(self).wf(),
        ensures
            match r {
                Some(v) => {
                    &&& old(self)@.contains_key(h)
                    &&& *v == old(self)@[h]
                    &&& final(self).wf()
                    &&& final(self)@ == old(self)@.insert(h, *final(v))
                    &&& final(self).slot_count() == old(self).slot_count()
                    &&& forall|g: SlotHandle| #[trigger] final(self).issued(g) == old(self).issued(g)
                },
                None => !old(self)@.contains_key(h) && *final(self) == *old(self),
            },
    {
        if h.index >= self.store.len() || self.free[h.index] || self.generation[h.index]
            != h.generation {
            None
        } else {
            Some(&mut self.store[h.index])
        }
    }

    pub fn get(&self, h: SlotHandle) -> (r: Option<&T>)
        requires
            self.wf(),
        ensures
            match r {
                Some(v) => self@.contains_key(h) && *v == self@[h],
                None => !self@.contains_key(h),
            },
    {
        if h.index >= self.store.len() || self.free[h.index] || self.generation[h.index]
            != h.generation {
            None
        } else {
            Some(&self.store[h.index])
        }
    }

    /// Stores `obj` in the first free slot whose generation can still be
    /// bumped, growing the store when there is none, and returns a handle
    /// that was never issued before.
    pub fn add(&mut self, obj: T) -> (r: SlotHandle)
        requires
            old(self).wf(),
            old(self).slot_count() <= usize::MAX / 4,
        ensures
            final(self).added_to(*old(self), r, obj),
            old(self).has_reusable_slot() ==> final(self).slot_count() == old(self).slot_count()
                && r.index < old(self).slot_count(),
            !old(self).has_reusable_slot() ==> final(self).slot_count() == if 2 * old(self).slot_count() < MIN_SLOTS {
                MIN_SLOTS as nat
            } else {
                2 * old(self).slot_count()
            } && r.index
                == old(self).slot_count(),
            !old(self).has_retired_slot() ==> {
                &&& !final(self).has_retired_slot()
                &&& !old(self).slot_in_use(r.index as int)
                &&& forall|j: int| 0 <= j < r.index ==> #[trigger] old(self).slot_in_use(j)
            },
    {
        let i = self.alloc_one();
        let ghost mid = *self;
        self.store.set(i, obj);
        let r = SlotHandle { index: i, generation: self.generation[i] };
        proof {
            assert(self.free@ == mid.free@);
            assert(self.generation@ == mid.generation@);
            assert(r == mid.handle_at(i as int));
            assert(self@.dom() =~= mid@.dom());
            assert(self@ =~= mid@.insert(r, obj));
            assert(self@ =~= old(self)@.insert(r, obj));
            self.lemma_view_finite();
        }
        r
    }

    /// Claims the first free slot whose generation is below the maximum,
    /// growing the store first when no such slot exists: the slot is taken
    /// and its generation bumped, so the live count rises by one.
    fn alloc_one(&mut self) -> (i: usize)
        requires
            old(self).wf(),
            old(self).slot_count() <= usize::MAX / 4,
        ensures
            final(self).wf(),
            i < final(self).slot_count(),
            !old(self).issued(final(self).handle_at(i as int)),
            !old(self)@.contains_key(final(self).handle_at(i as int)),
            final(self).issued(final(self).handle_at(i as int)),
            final(self)@ == old(self)@.insert(
                final(self).handle_at(i as int),
                final(self).store@[i as int],
            ),
            final(self)@.dom().finite(),
            final(self)@.len() == old(self)@.len() + 1,
            final(self).store@.len() == final(self).slot_count(),
            forall|g: SlotHandle| #[trigger] old(self).issued(g) ==> final(self).issued(g),
            old(self).has_reusable_slot() ==> final(self).slot_count() == old(self).slot_count()
                && i < old(self).slot_count(),
            !old(self).has_reusable_slot() ==> final(self).slot_count() == if 2 * old(self).slot_count() < MIN_SLOTS {
                MIN_SLOTS as nat
            } else {
                2 * old(self).slot_count()
            } && i
                == old(self).slot_count(),
            !old(self).has_retired_slot() ==> {
                &&& !final(self).has_retired_slot()
                &&& !old(self).slot_in_use(i as int)
                &&& forall|j: int| 0 <= j < i ==> #[trigger] old(self).slot_in_use(j)
            },
    {
        let n = self.free.len();
        let mut j: usize = 0;
        while j < n && !(self.free[j] && self.generation[j] < u64::MAX)
            invariant
                self.wf(),
                *self == *old(self),
                n == self.free@.len(),
                j <= n,
                forall|k: int| 0 <= k < j ==> !(self.free@[k] && self.generation@[k] < u64::MAX),
            decreases n - j,
        {
            j = j + 1;
        }
        proof {
            if !old(self).has_retired_slot() {
                assert forall|k: int| 0 <= k < j implies #[trigger] old(self).slot_in_use(k) by {
                    old(self).lemma_in_use_iff_taken(k);
                    if old(self).free@[k] {
                        assert(old(self).has_retired_slot());
                    }
                }
                if j < n {
                    old(self).lemma_in_use_iff_taken(j as int);
                } else if old(self).slot_in_use(j as int) {
                    let h = choose|h: SlotHandle| #[trigger] old(self)@.contains_key(h) && h.index == j;
                    old(self).lemma_live_issued(h);
                }
            }
            if old(self).has_reusable_slot() && j == n {
                let k = choose|k: int|
                    0 <= k < old(self).store@.len() && #[trigger] old(self).free@[k]
                        && old(self).generation@[k] < u64::MAX;
                assert(!(old(self).free@[k] && old(self).generation@[k] < u64::MAX));
            }
        }
        let i: usize = if j < n {
            j
        } else {
            let new_size: usize = if 2 * n < MIN_SLOTS {
                MIN_SLOTS
            } else {
                2 * n
            };
            self.resize(new_size);
            n
        };
        let ghost grown = *self;
        let g = self.generation[i] + 1;
        self.free.set(i, false);
        self.generation.set(i, g);
        proof {
            assert(self@ =~= old(self)@.insert(self.handle_at(i as int), self.store@[i as int]));
            old(self).lemma_view_finite();
            self.lemma_view_finite();
            if old(self)@.contains_key(self.handle_at(i as int)) {
                old(self).lemma_live_issued(self.handle_at(i as int));
            }
            if !old(self).has_retired_slot() && self.has_retired_slot() {
                let k = choose|k: int|
                    0 <= k < self.store@.len() && #[trigger] self.free@[k] && self.generation@[k]
                        == u64::MAX;
                assert(k != i);
                assert(grown.free@[k] && grown.generation@[k] == u64::MAX);
                if k < n {
                    assert(old(self).free@[k]);
                }
            }
        }
        i
    }

    /// Appends free slots, holding default values, up to `new_size` slots.
    fn resize(&mut self, new_size: usize)
        requires
            old(self).wf(),
            new_size > old(self).slot_count(),
        ensures
            final(self).wf(),
            final(self).slot_count() == new_size,
            final(self)@ == old(self)@,
            forall|j: int|
                0 <= j < old(self).slot_count() ==> final(self).free@[j] == old(self).free@[j]
                    && final(self).generation@[j] == old(self).generation@[j],
            forall|j: int|
                old(self).slot_count() <= j < new_size ==> final(self).free@[j]
                    && final(self).generation@[j] == 0,
    {
        let n = self.store.len();
        let mut k: usize = n;
        while k < new_size
            invariant
                self.wf(),
                n <= k <= new_size,
                self.store@.len() == k,
                forall|j: int|
                    0 <= j < n ==> self.free@[j] == old(self).free@[j] && self.generation@[j]
                        == old(self).generation@[j] && self.store@[j] == old(self).store@[j],
                forall|j: int| n <= j < k ==> self.free@[j] && self.generation@[j] == 0,
                n == old(self).slot_count(),
            decreases new_size - k,
        {
            self.store.push(T::default());
            self.free.push(true);
            self.generation.push(0);
            k = k + 1;
        }
        assert(self@ =~= old(self)@);
    }

    /// Frees the slot of the live handle `h`; `h` and every earlier handle
    /// to that slot stop resolving.
    pub fn delete(&mut self, h: SlotHandle)
        requires
            old(self).wf(),
            old(self)@.contains_key(h),
        ensures
            final(self).deleted_from(*old(self), h),
    {
        self.free.set(h.index, true);
        assert(self@ =~= old(self)@.remove(h));
        proof {
            old(self).lemma_view_finite();
            self.lemma_view_finite();
            assert(self.free@[h.index as int]);
            if !old(self).has_retired_slot() && h.generation < u64::MAX && self.has_retired_slot() {
                let k = choose|k: int|
                    0 <= k < self.store@.len() && #[trigger] self.free@[k] && self.generation@[k]
                        == u64::MAX;
                assert(k != h.index);
                assert(old(self).free@[k]);
            }
        }
    }

    /// A cursor over the occupied slots, in index order.
    pub fn iter(&self) -> (r: DynStoreIter)
        ensures
            r.pos() == 0,
    {
        DynStoreIter { next_ind: 0 }
    }
}

/// Cursor over the occupied slots of a `DynStore`, in index order; each
/// call of `next` reads the store it is given.
pub struct DynStoreIter {
    next_ind: usize,
}

impl DynStoreIter {
    /// The first slot index not yet looked at.
    pub closed spec fn pos(&self) -> int {
        self.next_ind as int
    }

    /// The value of the live handle with the smallest slot index at or after
    /// the cursor, which then moves just past that slot; `None` once no live
    /// handle is left there, and from then on.
    pub fn next<'a, T: Default>(&mut self, store: &'a DynStore<T>) -> (r: Option<&'a T>)
        requires
            store.wf(),
        ensures
            match r {
                Some(v) => {
                    &&& old(self).pos() < final(self).pos() <= store.slot_count()
                    &&& exists|h: SlotHandle|
                        #[trigger] store@.contains_key(h) && h.index == final(self).pos() - 1 && *v
                            == store@[h]
                    &&& forall|h: SlotHandle|
                        #[trigger] store@.contains_key(h) && old(self).pos() <= h.index ==> final(self).pos() - 1 <= h.index
                },
                None => final(self).pos() >= store.slot_count() && forall|h: SlotHandle|
                    #[trigger] store@.contains_key(h) ==> h.index < old(self).pos(),
            },
    {
        let n = store.free.len();
        let mut j: usize = self.next_ind;
        if j > n {
            return None;
        }
        while j < n
            invariant
                store.wf(),
                n == store.slot_count(),
                old(self).pos() <= j <= n,
                self.next_ind == old(self).next_ind,
                forall|k: int| old(self).pos() <= k < j ==> #[trigger] store.free@[k],
            decreases n - j,
        {
            if !store.free[j] {
                self.next_ind = j + 1;
                proof {
                    let h = store.handle_at(j as int);
                    assert(store@.contains_key(h));
                }
                return Some(&store.store[j]);
            }
            j = j + 1;
        }
        self.next_ind = n;
        None
    }
}

/// A deleted handle never resolves again, even after a later insertion
/// reuses its slot: it is not the handle that insertion returns.
pub proof fn lemma_handle_reuse_safe<T: Default>(
    before: DynStore<T>,
    deleted: DynStore<T>,
    after: DynStore<T>,
    h: SlotHandle,
    r: SlotHandle,
    v: T,
)
    requires
        before.wf(),
        before@.contains_key(h),
        deleted.deleted_from(before, h),
        after.added_to(deleted, r, v),
    ensures
        r != h,
        !after@.contains_key(h),
        after@.contains_key(r),
        after@[r] == v,
{
    before.lemma_live_issued(h);
}

} // verus!
