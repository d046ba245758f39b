//! The container: a set of items keyed by their identity part, with the
//! context part mutable in place.

use vstd::prelude::*;

use crate::hasher::NoHashBuildHasher;
use crate::item::{items_view, sorted_ids, Item};
use crate::model::{distinct_keys, filter_by, lemma_distinct_remove, lemma_filter_by,
    lemma_map_of_contains,
    lemma_map_of_dom_equal, lemma_map_of_get, lemma_map_of_len, lemma_map_of_push,
    lemma_map_of_remove, lemma_map_of_same_elements, lemma_map_of_swap, lemma_map_of_update,
    map_of};

verus! {

/// Why a capacity request was not honoured.
#[derive(Clone, Copy, Debug, PartialEq, Eq, Structural)]
pub enum CapacityError {
    /// The requested capacity does not fit in `usize`.
    Overflow,
    /// The allocator declined the request.
    AllocFailure,
}

/// A set of items keyed by their identity part.
///
/// Abstractly the set is a finite map from identity views to context views:
/// no two stored items share an identity, and every stored item is reachable
/// under the identity it was stored with. The storage itself is partitioned
/// into the identity column and the context column, and mutable access paths
/// hand out references into the context column only, so an item's identity
/// cannot change while it is stored; it leaves the set only by removal, as a
/// whole item again.
struct Cols<T: Item> {
    ids: Vec<T::Id>,
    ctxs: Vec<T::Ctx>,
}

pub struct MutSet<T: Item> {
    cols: Cols<T>,
    cap: usize,
    hasher: NoHashBuildHasher,
}

/// The identity/context pairs described by the two storage columns.
spec fn cols_entries<T: Item>(ids: Seq<T::Id>, ctxs: Seq<T::Ctx>) -> Seq<
    (<T::Id as View>::V, <T::Ctx as View>::V),
> {
    Seq::new(ids.len(), |k: int| (ids[k]@, ctxs[k]@))
}

impl<T: Item> Default for MutSet<T> {
    /// The empty set.
    fn default() -> (r: Self)
        ensures
            r@ == Map::<<T::Id as View>::V, <T::Ctx as View>::V>::empty(),
            r.spec_capacity() == 0,
    {
        MutSet::new()
    }
}

impl<T: Item> View for MutSet<T> {
    type V = Map<<T::Id as View>::V, <T::Ctx as View>::V>;

    open spec fn view(&self) -> Self::V {
        map_of(self.entries())
    }
}

impl<T: Item> MutSet<T> {
    /// The stored identity/context pairs, in backing order. The order is an
    /// implementation detail: it carries no meaning beyond being the order
    /// the unsorted traversals emit.
    pub closed spec fn entries(&self) -> Seq<(<T::Id as View>::V, <T::Ctx as View>::V)> {
        Seq::new(self.cols.ids@.len(), |i: int| (self.cols.ids@[i]@, self.cols.ctxs@[i]@))
    }

    /// The number of elements the set is known to have room for.
    pub closed spec fn spec_capacity(&self) -> int {
        if self.cap as int >= self.cols.ids@.len() {
            self.cap as int
        } else {
            self.cols.ids@.len() as int
        }
    }

    #[verifier::type_invariant]
    spec fn wf(self) -> bool {
        &&& self.cols.ids@.len() == self.cols.ctxs@.len()
        &&& distinct_keys(self.entries())
    }

    /// Creates an empty set.
    pub fn new() -> (r: Self)
        ensures
            r@ == Map::<<T::Id as View>::V, <T::Ctx as View>::V>::empty(),
            r.spec_capacity() == 0,
    {
        let r = MutSet { cols: Cols { ids: Vec::new(), ctxs: Vec::new() }, cap: 0, hasher: NoHashBuildHasher };
        proof {
            assert(r.entries() =~= Seq::empty());
        }
        r
    }

    /// Creates an empty set with room for at least `capacity` elements.
    pub fn with_capacity(capacity: usize) -> (r: Self)
        ensures
            r@ == Map::<<T::Id as View>::V, <T::Ctx as View>::V>::empty(),
            r.spec_capacity() == capacity,
    {
        let r = MutSet {
            cols: Cols { ids: Vec::with_capacity(capacity), ctxs: Vec::with_capacity(capacity) },
            cap: capacity,
            hasher: NoHashBuildHasher,
        };
        proof {
            assert(r.entries() =~= Seq::empty());
        }
        r
    }

    /// Creates an empty set that keeps the given hasher state.
    pub fn with_hasher(hasher: NoHashBuildHasher) -> (r: Self)
        ensures
            r@ == Map::<<T::Id as View>::V, <T::Ctx as View>::V>::empty(),
            r.spec_capacity() == 0,
    {
        let r = MutSet { cols: Cols { ids: Vec::new(), ctxs: Vec::new() }, cap: 0, hasher };
        proof {
            assert(r.entries() =~= Seq::empty());
        }
        r
    }

    /// Creates an empty set with room for at least `capacity` elements,
    /// keeping the given hasher state.
    pub fn with_capacity_and_hasher(capacity: usize, hasher: NoHashBuildHasher) -> (r: Self)
        ensures
            r@ == Map::<<T::Id as View>::V, <T::Ctx as View>::V>::empty(),
            r.spec_capacity() == capacity,
    {
        let r = MutSet {
            cols: Cols { ids: Vec::with_capacity(capacity), ctxs: Vec::with_capacity(capacity) },
            cap: capacity,
            hasher,
        };
        proof {
            assert(r.entries() =~= Seq::empty());
        }
        r
    }

    /// The hasher state the set was created with.
    pub fn hasher(&self) -> &NoHashBuildHasher {
        &self.hasher
    }

    /// Runs a precomputed 64-bit key through the set's pass-through hasher:
    /// it comes back unchanged.
    pub fn hash_one(&self, key: u64) -> (r: u64)
        ensures
            r == key,
    {
        let mut state = self.hasher.build_hasher();
        state.write_u64(key);
        state.finish()
    }

    /// The number of stored items.
    pub fn len(&self) -> (r: usize)
        ensures
            self@.dom().finite(),
            r == self@.dom().len(),
    {
        proof {
            use_type_invariant(&*self);
            lemma_map_of_len(self.entries());
        }
        self.cols.ids.len()
    }

    /// Whether the set stores nothing.
    pub fn is_empty(&self) -> (r: bool)
        ensures
            r == (self@ =~= Map::<<T::Id as View>::V, <T::Ctx as View>::V>::empty()),
    {
        proof {
            use_type_invariant(&*self);
            if self.cols.ids@.len() == 0 {
                assert(self.entries() =~= Seq::empty());
            } else {
                lemma_map_of_get(self.entries(), 0);
            }
        }
        self.cols.ids.is_empty()
    }

    /// The number of elements the set is known to have room for.
    pub fn capacity(&self) -> (r: usize)
        ensures
            r == self.spec_capacity(),
            self@.dom().finite(),
            r >= self@.dom().len(),
    {
        proof {
            use_type_invariant(&*self);
            lemma_map_of_len(self.entries());
        }
        let n = self.cols.ids.len();
        if self.cap >= n {
            self.cap
        } else {
            n
        }
    }

    /// Makes room for at least `additional` more items.
    pub fn reserve(&mut self, additional: usize)
        requires
            old(self)@.dom().len() + additional <= usize::MAX,
        ensures
            final(self)@ == old(self)@,
            final(self).entries() == old(self).entries(),
            final(self).spec_capacity() >= old(self)@.dom().len() + additional,
            final(self).spec_capacity() >= old(self).spec_capacity(),
    {
        proof {
            use_type_invariant(&*self);
            lemma_map_of_len(self.entries());
        }
        let ghost old_entries = self.entries();
        let mut cols: Cols<T> = Cols { ids: Vec::new(), ctxs: Vec::new() };
        core::mem::swap(&mut self.cols, &mut cols);
        proof {
            assert(self.entries() =~= Seq::empty());
        }
        let n = cols.ids.len();
        let want = n + additional;
        if want > self.cap {
            self.cap = want;
        }
        cols.ids.reserve(additional);
        cols.ctxs.reserve(additional);
        core::mem::swap(&mut self.cols, &mut cols);
        proof {
            assert(self.entries() =~= old_entries);
        }
    }

    /// Makes room for at least `additional` more items, reporting failure
    /// instead of aborting. Fails with [`CapacityError::Overflow`] exactly
    /// when the requested capacity does not fit in `usize`.
    pub fn try_reserve(&mut self, additional: usize) -> (r: Result<(), CapacityError>)
        ensures
            final(self)@ == old(self)@,
            final(self).entries() == old(self).entries(),
            final(self).spec_capacity() >= old(self).spec_capacity(),
            r is Ok ==> final(self).spec_capacity() >= old(self)@.dom().len() + additional,
            (r == Err::<(), CapacityError>(CapacityError::Overflow)) <==> old(self)@.dom().len()
                + additional > usize::MAX,
    {
        proof {
            use_type_invariant(&*self);
            lemma_map_of_len(self.entries());
        }
        let ghost old_entries = self.entries();
        let mut cols: Cols<T> = Cols { ids: Vec::new(), ctxs: Vec::new() };
        core::mem::swap(&mut self.cols, &mut cols);
        proof {
            assert(self.entries() =~= Seq::empty());
        }
        let n = cols.ids.len();
        let r = match n.checked_add(additional) {
            None => Err(CapacityError::Overflow),
            Some(want) => {
                match cols.ids.try_reserve(additional) {
                    Ok(()) => {
                        match cols.ctxs.try_reserve(additional) {
                            Ok(()) => {
                                if want > self.cap {
                                    self.cap = want;
                                }
                                Ok(())
                            },
                            Err(_) => Err(CapacityError::AllocFailure),
                        }
                    },
                    Err(_) => Err(CapacityError::AllocFailure),
                }
            },
        };
        core::mem::swap(&mut self.cols, &mut cols);
        proof {
            assert(self.entries() =~= old_entries);
        }
        r
    }

    /// Gives up any room beyond the stored items.
    pub fn shrink_to_fit(&mut self)
        ensures
            final(self)@ == old(self)@,
            final(self).entries() == old(self).entries(),
            final(self).spec_capacity() == old(self)@.dom().len(),
    {
        proof {
            use_type_invariant(&*self);
            lemma_map_of_len(self.entries());
        }
        self.cap = self.cols.ids.len();
    }

    /// Gives up room down to `min_capacity`, but never below the stored
    /// items; a no-op when the capacity is already at most `min_capacity`.
    pub fn shrink_to(&mut self, min_capacity: usize)
        ensures
            final(self)@ == old(self)@,
            final(self).entries() == old(self).entries(),
            final(self).spec_capacity() == if old(self).spec_capacity() > min_capacity {
                if old(self)@.dom().len() >= min_capacity {
                    old(self)@.dom().len() as int
                } else {
                    min_capacity as int
                }
            } else {
                old(self).spec_capacity()
            },
    {
        proof {
            use_type_invariant(&*self);
            lemma_map_of_len(self.entries());
        }
        let n = self.cols.ids.len();
        let current = if self.cap >= n {
            self.cap
        } else {
            n
        };
        if current > min_capacity {
            self.cap = if n >= min_capacity {
                n
            } else {
                min_capacity
            };
        }
    }

    /// Removes every item, keeping the reserved room.
    pub fn clear(&mut self)
        ensures
            final(self)@ == Map::<<T::Id as View>::V, <T::Ctx as View>::V>::empty(),
            final(self).spec_capacity() == old(self).spec_capacity(),
    {
        proof {
            use_type_invariant(&*self);
        }
        let mut cols: Cols<T> = Cols { ids: Vec::new(), ctxs: Vec::new() };
        core::mem::swap(&mut self.cols, &mut cols);
        let n = cols.ids.len();
        if self.cap < n {
            self.cap = n;
        }
        proof {
            assert(self.entries() =~= Seq::empty());
        }
    }

    /// The index of the item stored under `id`, if any.
    fn find(&self, id: &T::Id) -> (r: Option<usize>)
        ensures
            match r {
                Some(i) => i < self.entries().len() && self.entries()[i as int].0 == id@
                    && self@.contains_key(id@),
                None => !self@.contains_key(id@),
            },
    {
        proof {
            use_type_invariant(&*self);
        }
        let n = self.cols.ids.len();
        let mut i: usize = 0;
        while i < n
            invariant
                n == self.cols.ids@.len(),
                i <= n,
                n == self.entries().len(),
                forall|j: int| 0 <= j < i ==> self.entries()[j].0 != id@,
            decreases n - i,
        {
            if T::eq_id(&self.cols.ids[i], id) {
                proof {
                    use_type_invariant(&*self);
                    lemma_map_of_get(self.entries(), i as int);
                }
                return Some(i);
            }
            i += 1;
        }
        proof {
            lemma_map_of_contains(self.entries(), id@);
        }
        None
    }

    /// Whether an item is stored under `id`.
    pub fn id_contains(&self, id: &T::Id) -> (r: bool)
        ensures
            r == self@.contains_key(id@),
    {
        self.find(id).is_some()
    }

    /// Whether an item is stored under `id`.
    pub fn contains(&self, id: &T::Id) -> (r: bool)
        ensures
            r == self@.contains_key(id@),
    {
        self.id_contains(id)
    }

    /// The item stored under `id`, if any, split into its identity and
    /// context parts.
    pub fn id_get<'a>(&'a self, id: &T::Id) -> (r: Option<(&'a T::Id, &'a T::Ctx)>)
        ensures
            match r {
                Some(p) => self@.contains_key(id@) && p.0@ == id@ && p.1@ == self@[id@],
                None => !self@.contains_key(id@),
            },
    {
        match self.find(id) {
            None => None,
            Some(i) => {
                proof {
                    use_type_invariant(&*self);
                    lemma_map_of_get(self.entries(), i as int);
                }
                Some((&self.cols.ids[i], &self.cols.ctxs[i]))
            },
        }
    }

    /// The item stored under `id`, if any, split into its identity and
    /// context parts.
    pub fn get<'a>(&'a self, id: &T::Id) -> (r: Option<(&'a T::Id, &'a T::Ctx)>)
        ensures
            match r {
                Some(p) => self@.contains_key(id@) && p.0@ == id@ && p.1@ == self@[id@],
                None => !self@.contains_key(id@),
            },
    {
        self.id_get(id)
    }

    /// Appends a pair whose key is not yet present.
    fn push_pair(&mut self, id: T::Id, ctx: T::Ctx)
        requires
            !old(self)@.contains_key(id@),
        ensures
            final(self)@ == old(self)@.insert(id@, ctx@),
            final(self).entries() == old(self).entries().push((id@, ctx@)),
            final(self).spec_capacity() >= old(self).spec_capacity(),
    {
        proof {
            use_type_invariant(&*self);
            lemma_map_of_contains(self.entries(), id@);
        }
        let ghost old_entries = self.entries();
        let ghost id_v = id@;
        let ghost ctx_v = ctx@;
        let mut cols: Cols<T> = Cols { ids: Vec::new(), ctxs: Vec::new() };
        core::mem::swap(&mut self.cols, &mut cols);
        proof {
            assert(self.entries() =~= Seq::empty());
        }
        cols.ids.push(id);
        cols.ctxs.push(ctx);
        let n = cols.ids.len();
        if self.cap < n {
            self.cap = n;
        }
        proof {
            let new_entries = Seq::new(cols.ids@.len(), |j: int| (cols.ids@[j]@, cols.ctxs@[j]@));
            assert(new_entries =~= old_entries.push((id_v, ctx_v)));
            lemma_map_of_push(old_entries, (id_v, ctx_v));
            assert forall|i: int, j: int|
                0 <= i < j < new_entries.len() implies new_entries[i].0 != new_entries[j].0 by {
                if j < old_entries.len() {
                    assert(old_entries[i].0 != old_entries[j].0);
                } else {
                    assert(!exists|k: int| 0 <= k < old_entries.len() && old_entries[k].0 == id_v);
                    assert(old_entries[i].0 != id_v);
                }
            }
        }
        core::mem::swap(&mut self.cols, &mut cols);
        proof {
            assert(self.entries() =~= old_entries.push((id_v, ctx_v)));
        }
    }

    /// Takes the pair at an index out of the backing storage.
    fn take_pair(&mut self, i: usize) -> (p: (T::Id, T::Ctx))
        requires
            i < old(self).entries().len(),
        ensures
            p.0@ == old(self).entries()[i as int].0,
            p.1@ == old(self).entries()[i as int].1,
            old(self)@.contains_key(p.0@),
            old(self)@[p.0@] == p.1@,
            final(self)@ == old(self)@.remove(p.0@),
            final(self).entries() == old(self).entries().remove(i as int),
            final(self).spec_capacity() >= old(self).spec_capacity(),
    {
        proof {
            use_type_invariant(&*self);
            lemma_map_of_get(self.entries(), i as int);
            lemma_map_of_remove(self.entries(), i as int);
            lemma_distinct_remove(self.entries(), i as int);
        }
        let ghost old_entries = self.entries();
        let mut cols: Cols<T> = Cols { ids: Vec::new(), ctxs: Vec::new() };
        core::mem::swap(&mut self.cols, &mut cols);
        proof {
            assert(self.entries() =~= Seq::empty());
        }
        let n = cols.ids.len();
        if self.cap < n {
            self.cap = n;
        }
        let id = cols.ids.remove(i);
        let ctx = cols.ctxs.remove(i);
        proof {
            let new_entries = Seq::new(cols.ids@.len(), |j: int| (cols.ids@[j]@, cols.ctxs@[j]@));
            assert(new_entries =~= old_entries.remove(i as int));
        }
        core::mem::swap(&mut self.cols, &mut cols);
        proof {
            assert(self.entries() =~= old_entries.remove(i as int));
        }
        (id, ctx)
    }

    /// Adds an item. Returns whether it was newly added: an item whose
    /// identity is already present leaves the set unchanged, and the
    /// argument is dropped.
    pub fn insert(&mut self, item: T) -> (r: bool)
        ensures
            r == !old(self)@.contains_key(item.id_of()),
            old(self)@.contains_key(item.id_of()) ==> final(self)@ == old(self)@
                && final(self).entries() == old(self).entries(),
            !old(self)@.contains_key(item.id_of()) ==> final(self)@ == old(self)@.insert(
                item.id_of(),
                item.ctx_of(),
            ) && final(self).entries() == old(self).entries().push(
                (item.id_of(), item.ctx_of()),
            ),
            final(self).spec_capacity() >= old(self).spec_capacity(),
    {
        let (id, ctx) = item.split();
        match self.find(&id) {
            Some(_) => false,
            None => {
                self.push_pair(id, ctx);
                true
            },
        }
    }

    /// Adds an item, replacing and returning any stored item with the same
    /// identity.
    pub fn replace(&mut self, item: T) -> (r: Option<T>)
        ensures
            final(self)@ == old(self)@.insert(item.id_of(), item.ctx_of()),
            match r {
                Some(o) => old(self)@.contains_key(item.id_of()) && o.id_of() == item.id_of()
                    && o.ctx_of() == old(self)@[item.id_of()],
                None => !old(self)@.contains_key(item.id_of()),
            },
    {
        let (id, ctx) = item.split();
        let ghost id_v = id@;
        let ghost ctx_v = ctx@;
        match self.find(&id) {
            None => {
                self.push_pair(id, ctx);
                None
            },
            Some(i) => {
                let p = self.take_pair(i);
                self.push_pair(id, ctx);
                proof {
                    assert(final(self)@ =~= old(self)@.insert(id_v, ctx_v));
                }
                Some(T::compose(p.0, p.1))
            },
        }
    }

    /// Mutable access to the context of the item stored under `id`, if any.
    ///
    /// The handle reaches the context column only, so the identity the item
    /// is stored under cannot change through it.
    pub fn id_get_mut<'a>(&'a mut self, id: &T::Id) -> (r: Option<&'a mut T::Ctx>)
        ensures
            match r {
                Some(c) => old(self)@.contains_key(id@) && (*c)@ == old(self)@[id@]
                    && final(self)@ == old(self)@.insert(id@, (*final(c))@),
                None => !old(self)@.contains_key(id@) && final(self)@ == old(self)@,
            },
    {
        proof {
            use_type_invariant(&*self);
        }
        let ghost old_entries = self.entries();
        match self.find(id) {
            None => None,
            Some(i) => {
                proof {
                    lemma_map_of_get(old_entries, i as int);
                    assert forall|x: <T::Ctx as View>::V|
                        #[trigger] map_of(old_entries.update(i as int, (id@, x))) == map_of(
                            old_entries,
                        ).insert(id@, x) && distinct_keys(
                            old_entries.update(i as int, (id@, x)),
                        ) by {
                        lemma_map_of_update(old_entries, i as int, (id@, x));
                    }
                    assert forall|x: T::Ctx|
                        #![trigger self.cols.ctxs@.update(i as int, x)]
                        Seq::new(
                            self.cols.ids@.len(),
                            |j: int|
                                (self.cols.ids@[j]@, self.cols.ctxs@.update(i as int, x)[j]@),
                        ) =~= old_entries.update(i as int, (id@, x@)) by {}
                }
                Some(&mut self.cols.ctxs[i])
            },
        }
    }

    /// Mutable access to the context of the item stored under `id`, if any.
    pub fn get_mut<'a>(&'a mut self, id: &T::Id) -> (r: Option<&'a mut T::Ctx>)
        ensures
            match r {
                Some(c) => old(self)@.contains_key(id@) && (*c)@ == old(self)@[id@]
                    && final(self)@ == old(self)@.insert(id@, (*final(c))@),
                None => !old(self)@.contains_key(id@) && final(self)@ == old(self)@,
            },
    {
        self.id_get_mut(id)
    }

    /// Removes and returns the item stored under `id`, if any, as a whole
    /// owned item again.
    pub fn id_take(&mut self, id: &T::Id) -> (r: Option<T>)
        ensures
            final(self)@ == old(self)@.remove(id@),
            match r {
                Some(t) => old(self)@.contains_key(id@) && t.id_of() == id@ && t.ctx_of()
                    == old(self)@[id@],
                None => !old(self)@.contains_key(id@),
            },
    {
        match self.find(id) {
            None => {
                proof {
                    assert(old(self)@.remove(id@) =~= old(self)@);
                }
                None
            },
            Some(i) => {
                let p = self.take_pair(i);
                Some(T::compose(p.0, p.1))
            },
        }
    }

    /// Removes and returns the item stored under `id`, if any.
    pub fn take(&mut self, id: &T::Id) -> (r: Option<T>)
        ensures
            final(self)@ == old(self)@.remove(id@),
            match r {
                Some(t) => old(self)@.contains_key(id@) && t.id_of() == id@ && t.ctx_of()
                    == old(self)@[id@],
                None => !old(self)@.contains_key(id@),
            },
    {
        self.id_take(id)
    }

    /// Removes the item stored under `id`. Returns whether one was present.
    pub fn id_remove(&mut self, id: &T::Id) -> (r: bool)
        ensures
            final(self)@ == old(self)@.remove(id@),
            r == old(self)@.contains_key(id@),
    {
        self.id_take(id).is_some()
    }

    /// Removes the item stored under `id`. Returns whether one was present.
    pub fn remove(&mut self, id: &T::Id) -> (r: bool)
        ensures
            final(self)@ == old(self)@.remove(id@),
            r == old(self)@.contains_key(id@),
    {
        self.id_remove(id)
    }

    /// Every stored item, split into borrowed identity and context parts,
    /// in backing order.
    pub fn iter<'a>(&'a self) -> (r: Vec<(&'a T::Id, &'a T::Ctx)>)
        ensures
            r@.len() == self.entries().len(),
            forall|i: int|
                0 <= i < r@.len() ==> (#[trigger] r@[i].0@, r@[i].1@) == self.entries()[i],
            distinct_keys(self.entries()),
            self@.dom().finite(),
            self@.dom().len() == self.entries().len(),
    {
        proof {
            use_type_invariant(&*self);
            lemma_map_of_len(self.entries());
        }
        let n = self.cols.ids.len();
        let mut r: Vec<(&'a T::Id, &'a T::Ctx)> = Vec::new();
        let mut i: usize = 0;
        while i < n
            invariant
                n == self.cols.ids@.len(),
                n == self.cols.ctxs@.len(),
                n == self.entries().len(),
                i <= n,
                r@.len() == i,
                forall|j: int|
                    0 <= j < i ==> (#[trigger] r@[j].0@, r@[j].1@) == self.entries()[j],
            decreases n - i,
        {
            r.push((&self.cols.ids[i], &self.cols.ctxs[i]));
            i += 1;
        }
        r
    }

    /// Consumes the set, handing every stored item back whole, in backing
    /// order.
    pub fn into_iter(self) -> (r: Vec<T>)
        ensures
            items_view(r@) == self.entries(),
            distinct_keys(self.entries()),
    {
        proof {
            use_type_invariant(&self);
        }
        let ghost entries0 = self.entries();
        let MutSet { cols, .. } = self;
        let mut ids = cols.ids;
        let mut ctxs = cols.ctxs;
        let ghost ids0 = ids@;
        let ghost ctxs0 = ctxs@;
        let mut r: Vec<T> = Vec::new();
        let ghost mut k: int = 0;
        while ids.len() > 0
            invariant
                0 <= k <= entries0.len(),
                r@.len() == k,
                ids@ =~= ids0.skip(k),
                ctxs@ =~= ctxs0.skip(k),
                ids0.len() == ctxs0.len(),
                ids0.len() == entries0.len(),
                forall|j: int| 0 <= j < entries0.len() ==> entries0[j] == (ids0[j]@, ctxs0[j]@),
                items_view(r@) =~= entries0.take(k),
            decreases ids@.len(),
        {
            let id = ids.remove(0);
            let ctx = ctxs.remove(0);
            let t = T::compose(id, ctx);
            r.push(t);
            proof {
                assert(ids@ =~= ids0.skip(k + 1));
                assert(ctxs@ =~= ctxs0.skip(k + 1));
                assert(items_view(r@) =~= entries0.take(k + 1));
                k = k + 1;
            }
        }
        proof {
            assert(items_view(r@) =~= entries0);
        }
        r
    }

    /// One mutable pass over every stored item: each item's context is
    /// replaced by what `f` makes of its identity and current context. The
    /// identities are untouched, so every item stays stored under the
    /// identity it had: witnessed by a transcript `w` of the calls, one per
    /// stored item in backing order, holding the arguments `f` was given and
    /// the context it returned.
    pub fn iter_mut<F: Fn(&T::Id, &T::Ctx) -> T::Ctx>(&mut self, f: F)
        requires
            forall|a: &T::Id, b: &T::Ctx| #[trigger] f.requires((a, b)),
        ensures
            final(self).entries().len() == old(self).entries().len(),
            forall|i: int|
                0 <= i < final(self).entries().len() ==> (#[trigger] final(self).entries()[i]).0
                    == old(self).entries()[i].0,
            final(self)@.dom() == old(self)@.dom(),
            exists|w: Seq<(T::Id, T::Ctx, T::Ctx)>|
                #![trigger w.len()]
                w.len() == old(self).entries().len() && forall|i: int|
                    0 <= i < w.len() ==> (#[trigger] w[i]).0@ == old(self).entries()[i].0
                        && w[i].1@ == old(self).entries()[i].1 && f.ensures(
                        (&w[i].0, &w[i].1),
                        w[i].2,
                    ) && w[i].2@ == final(self).entries()[i].1,
    {
        proof {
            use_type_invariant(&*self);
        }
        let ghost entries0 = self.entries();
        let ghost mut w: Seq<(T::Id, T::Ctx, T::Ctx)> = Seq::empty();
        let n = self.cols.ids.len();
        let mut i: usize = 0;
        while i < n
            invariant
                forall|a: &T::Id, b: &T::Ctx| #[trigger] f.requires((a, b)),
                n == self.cols.ids@.len(),
                n == self.cols.ctxs@.len(),
                n == entries0.len(),
                i <= n,
                w.len() == i,
                distinct_keys(self.entries()),
                self.entries().len() == n,
                forall|j: int| 0 <= j < n ==> (#[trigger] self.entries()[j]).0 == entries0[j].0,
                forall|j: int| i <= j < n ==> #[trigger] self.entries()[j] == entries0[j],
                forall|j: int|
                    0 <= j < i ==> (#[trigger] w[j]).0@ == entries0[j].0 && w[j].1@
                        == entries0[j].1 && f.ensures((&w[j].0, &w[j].1), w[j].2) && w[j].2@
                        == self.entries()[j].1,
            decreases n - i,
        {
            let ghost pre = self.entries();
            let a = &self.cols.ids[i];
            let b = &self.cols.ctxs[i];
            let nc = f(a, b);
            proof {
                w = w.push((*a, *b, nc));
            }
            let ghost nc_v = nc@;
            proof {
                assert forall|x: T::Ctx|
                    #![trigger self.cols.ctxs@.update(i as int, x)]
                    Seq::new(
                        self.cols.ids@.len(),
                        |j: int| (self.cols.ids@[j]@, self.cols.ctxs@.update(i as int, x)[j]@),
                    ) =~= pre.update(i as int, (pre[i as int].0, x@)) by {}
            }
            let slot = &mut self.cols.ctxs[i];
            *slot = nc;
            proof {
                assert(self.entries() =~= pre.update(i as int, (pre[i as int].0, nc_v)));
            }
            i += 1;
        }
        proof {
            lemma_map_of_dom_equal(entries0, self.entries());
            assert(w.len() == old(self).entries().len());
        }
    }

    /// Keeps only the items `f` approves of, handed to it as identity and
    /// context parts, and drops the rest: witnessed by a transcript `w` of
    /// the calls, one per stored item in backing order, holding the
    /// arguments `f` was given and its verdict. The surviving entries are
    /// exactly the approved ones, unchanged and in their old order.
    pub fn retain<F: Fn(&T::Id, &T::Ctx) -> bool>(&mut self, f: F)
        requires
            forall|a: &T::Id, b: &T::Ctx| #[trigger] f.requires((a, b)),
        ensures
            forall|k: <T::Id as View>::V| #[trigger]
                final(self)@.contains_key(k) ==> old(self)@.contains_key(k) && final(self)@[k]
                    == old(self)@[k],
            exists|w: Seq<(T::Id, T::Ctx, bool)>|
                #![trigger w.len()]
                w.len() == old(self).entries().len() && (forall|i: int|
                    0 <= i < w.len() ==> (#[trigger] w[i]).0@ == old(self).entries()[i].0
                        && w[i].1@ == old(self).entries()[i].1 && f.ensures(
                        (&w[i].0, &w[i].1),
                        w[i].2,
                    )) && final(self).entries() == filter_by(
                    old(self).entries(),
                    w.map(|i: int, t: (T::Id, T::Ctx, bool)| t.2),
                ),
    {
        proof {
            use_type_invariant(&*self);
        }
        let ghost entries0 = self.entries();
        let ghost mut w: Seq<(T::Id, T::Ctx, bool)> = Seq::empty();
        let mut cols: Cols<T> = Cols { ids: Vec::new(), ctxs: Vec::new() };
        core::mem::swap(&mut self.cols, &mut cols);
        proof {
            assert(self.entries() =~= Seq::empty());
        }
        let mut ids: Vec<T::Id> = Vec::new();
        let mut ctxs: Vec<T::Ctx> = Vec::new();
        let n = cols.ids.len();
        let mut i: usize = 0;
        while i < n
            invariant
                forall|a: &T::Id, b: &T::Ctx| #[trigger] f.requires((a, b)),
                n == cols.ids@.len(),
                n == cols.ctxs@.len(),
                n == entries0.len(),
                i <= n,
                w.len() == i,
                ids@.len() == ctxs@.len(),
                forall|j: int| 0 <= j < n ==> entries0[j] == ((#[trigger] cols.ids@[j])@, cols.ctxs@[j]@),
                forall|j: int|
                    0 <= j < i ==> (#[trigger] w[j]).0@ == entries0[j].0 && w[j].1@
                        == entries0[j].1 && f.ensures((&w[j].0, &w[j].1), w[j].2),
                Seq::new(ids@.len(), |j: int| (ids@[j]@, ctxs@[j]@)) =~= filter_by(
                    entries0.take(i as int),
                    w.map(|i: int, t: (T::Id, T::Ctx, bool)| t.2),
                ),
            decreases n - i,
        {
            let ghost w0 = w;
            let ghost built0 = Seq::new(ids@.len(), |j: int| (ids@[j]@, ctxs@[j]@));
            let a = &cols.ids[i];
            let b = &cols.ctxs[i];
            let keep = f(a, b);
            proof {
                w = w.push((*a, *b, keep));
                assert(w.drop_last() =~= w0);
                assert(w.map(|i: int, t: (T::Id, T::Ctx, bool)| t.2).drop_last() =~= w0.map(|i: int, t: (T::Id, T::Ctx, bool)| t.2));
                assert(w.map(|i: int, t: (T::Id, T::Ctx, bool)| t.2).last() == keep);
                assert(entries0.take(i + 1).drop_last() =~= entries0.take(i as int));
                assert(entries0.take(i + 1).last() == (a@, b@));
            }
            if keep {
                let id = T::dup_id(a);
                let ctx = T::dup_ctx(b);
                ids.push(id);
                ctxs.push(ctx);
                proof {
                    assert(filter_by(entries0.take(i + 1), w.map(|i: int, t: (T::Id, T::Ctx, bool)| t.2)) == filter_by(
                        entries0.take(i as int),
                        w0.map(|i: int, t: (T::Id, T::Ctx, bool)| t.2),
                    ).push((a@, b@)));
                    assert(Seq::new(ids@.len(), |j: int| (ids@[j]@, ctxs@[j]@)) =~= built0.push(
                        (a@, b@),
                    ));
                }
            } else {
                proof {
                    assert(filter_by(entries0.take(i + 1), w.map(|i: int, t: (T::Id, T::Ctx, bool)| t.2)) == filter_by(
                        entries0.take(i as int),
                        w0.map(|i: int, t: (T::Id, T::Ctx, bool)| t.2),
                    ));
                }
            }
            i += 1;
        }
        proof {
            assert(entries0.take(n as int) =~= entries0);
            lemma_filter_by(entries0, w.map(|i: int, t: (T::Id, T::Ctx, bool)| t.2));
        }
        cols.ids = ids;
        cols.ctxs = ctxs;
        core::mem::swap(&mut self.cols, &mut cols);
        proof {
            assert(self.entries() =~= filter_by(entries0, w.map(|i: int, t: (T::Id, T::Ctx, bool)| t.2)));
            assert forall|k: <T::Id as View>::V| #[trigger]
                self@.contains_key(k) implies old(self)@.contains_key(k) && self@[k] == old(
                self,
            )@[k] by {}
            assert(w.len() == old(self).entries().len());
        }
    }


    /// A copy of the set: the same identities, contexts, backing order and
    /// capacity.
    pub fn duplicate(&self) -> (r: Self)
        ensures
            r@ == self@,
            r.entries() == self.entries(),
            r.spec_capacity() == self.spec_capacity(),
    {
        proof {
            use_type_invariant(&*self);
        }
        let n = self.cols.ids.len();
        let mut ids: Vec<T::Id> = Vec::new();
        let mut ctxs: Vec<T::Ctx> = Vec::new();
        let mut k: usize = 0;
        while k < n
            invariant
                n == self.cols.ids@.len(),
                n == self.cols.ctxs@.len(),
                k <= n,
                ids@.len() == k,
                ctxs@.len() == k,
                forall|l: int| 0 <= l < k ==> (#[trigger] ids@[l])@ == self.cols.ids@[l]@,
                forall|l: int| 0 <= l < k ==> (#[trigger] ctxs@[l])@ == self.cols.ctxs@[l]@,
            decreases n - k,
        {
            ids.push(T::dup_id(&self.cols.ids[k]));
            ctxs.push(T::dup_ctx(&self.cols.ctxs[k]));
            k += 1;
        }
        proof {
            assert(cols_entries::<T>(ids@, ctxs@) =~= self.entries());
        }
        let r = MutSet { cols: Cols { ids, ctxs }, cap: self.cap, hasher: self.hasher };
        proof {
            assert(r.entries() == cols_entries::<T>(r.cols.ids@, r.cols.ctxs@));
        }
        r
    }

    /// Reorders the backing storage so that the unsorted traversals emit
    /// items in ascending identity order. The content is untouched.
    pub fn sort(&mut self)
        ensures
            final(self)@ == old(self)@,
            final(self)@.dom() == old(self)@.dom(),
            final(self).entries().len() == old(self).entries().len(),
            sorted_ids::<T>(final(self).entries()),
    {
        proof {
            use_type_invariant(&*self);
            lemma_map_of_len(self.entries());
        }
        let ghost entries0 = self.entries();
        let mut cols: Cols<T> = Cols { ids: Vec::new(), ctxs: Vec::new() };
        core::mem::swap(&mut self.cols, &mut cols);
        proof {
            assert(self.entries() =~= Seq::empty());
            assert(cols_entries::<T>(cols.ids@, cols.ctxs@) =~= entries0);
        }
        let n = cols.ids.len();
        if n > 0 {
            let mut i: usize = 1;
            while i < n
                invariant
                    n == cols.ids@.len(),
                    n == cols.ctxs@.len(),
                    1 <= i <= n,
                    distinct_keys(cols_entries::<T>(cols.ids@, cols.ctxs@)),
                    map_of(cols_entries::<T>(cols.ids@, cols.ctxs@)) == map_of(entries0),
                    forall|a: int, b: int|
                        #![trigger cols_entries::<T>(cols.ids@, cols.ctxs@)[a],
                            cols_entries::<T>(cols.ids@, cols.ctxs@)[b]]
                        0 <= a < b < i ==> T::id_le(
                            cols_entries::<T>(cols.ids@, cols.ctxs@)[a].0,
                            cols_entries::<T>(cols.ids@, cols.ctxs@)[b].0,
                        ),
                decreases n - i,
            {
                let mut j: usize = i;
                while j != 0 && !T::le_id(&cols.ids[j - 1], &cols.ids[j])
                    invariant
                        n == cols.ids@.len(),
                        n == cols.ctxs@.len(),
                        1 <= i < n,
                        0 <= j <= i,
                        distinct_keys(cols_entries::<T>(cols.ids@, cols.ctxs@)),
                        map_of(cols_entries::<T>(cols.ids@, cols.ctxs@)) == map_of(entries0),
                        forall|a: int, b: int|
                            #![trigger cols_entries::<T>(cols.ids@, cols.ctxs@)[a],
                                cols_entries::<T>(cols.ids@, cols.ctxs@)[b]]
                            0 <= a < b <= i && a != j && b != j ==> T::id_le(
                                cols_entries::<T>(cols.ids@, cols.ctxs@)[a].0,
                                cols_entries::<T>(cols.ids@, cols.ctxs@)[b].0,
                            ),
                        forall|a: int|
                            #![trigger cols_entries::<T>(cols.ids@, cols.ctxs@)[a]]
                            j < a <= i ==> T::id_le(
                                cols_entries::<T>(cols.ids@, cols.ctxs@)[j as int].0,
                                cols_entries::<T>(cols.ids@, cols.ctxs@)[a].0,
                            ),
                    decreases j,
                {
                    let ghost pre = cols_entries::<T>(cols.ids@, cols.ctxs@);
                    proof {
                        T::lemma_id_le_total(pre[j - 1].0, pre[j as int].0);
                        lemma_map_of_swap(pre, j - 1, j as int);
                    }
                    let id = cols.ids.remove(j);
                    cols.ids.insert(j - 1, id);
                    let ctx = cols.ctxs.remove(j);
                    cols.ctxs.insert(j - 1, ctx);
                    proof {
                        let post = cols_entries::<T>(cols.ids@, cols.ctxs@);
                        assert(post =~= pre.update(j - 1, pre[j as int]).update(
                            j as int,
                            pre[j - 1],
                        ));
                        assert forall|a: int, b: int|
                            #![trigger post[a], post[b]]
                            0 <= a < b <= i && a != j - 1 && b != j - 1 implies T::id_le(
                            post[a].0,
                            post[b].0,
                        ) by {
                            if b == j {
                                assert(post[b] == pre[j - 1]);
                                assert(T::id_le(pre[a].0, pre[j - 1].0));
                            } else if a == j {
                                assert(post[a] == pre[j - 1]);
                                assert(T::id_le(pre[j - 1].0, pre[b].0));
                            } else {
                                assert(post[a] == pre[a] && post[b] == pre[b]);
                            }
                        }
                        assert forall|a: int| #![trigger post[a]] j - 1 < a <= i implies T::id_le(
                            post[j - 1].0,
                            post[a].0,
                        ) by {
                            if a == j {
                                assert(post[a] == pre[j - 1] && post[j - 1] == pre[j as int]);
                            } else {
                                assert(post[a] == pre[a] && post[j - 1] == pre[j as int]);
                            }
                        }
                    }
                    j -= 1;
                }
                proof {
                    let cur = cols_entries::<T>(cols.ids@, cols.ctxs@);
                    assert forall|a: int, b: int|
                        #![trigger cur[a], cur[b]]
                        0 <= a < b < i + 1 implies T::id_le(cur[a].0, cur[b].0) by {
                        if j != 0 {
                            assert(T::id_le(cur[j - 1].0, cur[j as int].0));
                            if a < j - 1 && b == j {
                                assert(T::id_le(cur[a].0, cur[j - 1].0));
                                T::lemma_id_le_trans(cur[a].0, cur[j - 1].0, cur[j as int].0);
                            }
                        }
                    }
                }
                i += 1;
            }
        }
        proof {
            let cur = cols_entries::<T>(cols.ids@, cols.ctxs@);
            if n == 0 {
                assert(cur =~= entries0);
            }
        }
        core::mem::swap(&mut self.cols, &mut cols);
        proof {
            assert(self.entries() =~= cols_entries::<T>(self.cols.ids@, self.cols.ctxs@));
            lemma_map_of_len(self.entries());
        }
    }

    /// Consumes the set, handing every stored item back whole, in ascending
    /// identity order.
    pub fn into_iter_sorted(self) -> (r: Vec<T>)
        ensures
            sorted_ids::<T>(items_view(r@)),
            distinct_keys(items_view(r@)),
            map_of(items_view(r@)) == self@,
    {
        let mut s = self;
        s.sort();
        s.into_iter()
    }

    /// Consumes the set, handing every stored item back whole, in
    /// descending identity order.
    pub fn into_iter_sorted_desc(self) -> (r: Vec<T>)
        ensures
            distinct_keys(items_view(r@)),
            map_of(items_view(r@)) == self@,
            forall|a: int, b: int|
                0 <= a < b < r@.len() ==> T::id_le(
                    (#[trigger] items_view(r@)[b]).0,
                    (#[trigger] items_view(r@)[a]).0,
                ),
    {
        let ghost m0 = self@;
        let mut v = self.into_iter_sorted();
        let ghost vv0 = v@;
        let ghost e0 = items_view(vv0);
        let n = v.len();
        let mut r: Vec<T> = Vec::new();
        while v.len() > 0
            invariant
                n == vv0.len(),
                v@ =~= vv0.take(v@.len() as int),
                r@.len() + v@.len() == n,
                forall|k: int| 0 <= k < r@.len() ==> #[trigger] r@[k] == vv0[n - 1 - k],
            decreases v@.len(),
        {
            match v.pop() {
                Some(t) => {
                    r.push(t);
                },
                None => {
                    proof {
                        assert(false);
                    }
                },
            }
            proof {
                assert(v@ =~= vv0.take(v@.len() as int));
            }
        }
        proof {
            assert forall|k: int|
                0 <= k < r@.len() implies #[trigger] items_view(r@)[k] == e0[n - 1 - k] by {
                assert(r@[k] == vv0[n - 1 - k]);
            }
            assert forall|a: int, b: int|
                0 <= a < b < items_view(r@).len() implies items_view(r@)[a].0 != items_view(
                r@,
            )[b].0 by {
                assert(items_view(r@)[a] == e0[n - 1 - a]);
                assert(items_view(r@)[b] == e0[n - 1 - b]);
            }
            assert forall|i: int|
                0 <= i < items_view(r@).len() implies exists|j: int|
                0 <= j < e0.len() && e0[j] == #[trigger] items_view(r@)[i] by {
                assert(e0[n - 1 - i] == items_view(r@)[i]);
            }
            assert forall|j: int|
                0 <= j < e0.len() implies exists|i: int|
                0 <= i < items_view(r@).len() && items_view(r@)[i] == #[trigger] e0[j] by {
                assert(items_view(r@)[n - 1 - j] == e0[j]);
            }
            lemma_map_of_same_elements(items_view(r@), e0);
        }
        r
    }

    /// Every stored item, copied out whole in descending identity order; the
    /// backing storage is untouched.
    pub fn iter_sorted_desc(&self) -> (r: Vec<T>)
        ensures
            distinct_keys(items_view(r@)),
            map_of(items_view(r@)) == self@,
            forall|a: int, b: int|
                0 <= a < b < r@.len() ==> T::id_le(
                    (#[trigger] items_view(r@)[b]).0,
                    (#[trigger] items_view(r@)[a]).0,
                ),
    {
        self.duplicate().into_iter_sorted_desc()
    }

    /// Every stored item, copied out whole in ascending identity order; the
    /// backing storage is untouched.
    pub fn iter_sorted(&self) -> (r: Vec<T>)
        ensures
            sorted_ids::<T>(items_view(r@)),
            distinct_keys(items_view(r@)),
            map_of(items_view(r@)) == self@,
    {
        self.duplicate().into_iter_sorted()
    }

    /// Whether this set and `other` store the same identities with the same
    /// contexts.
    pub fn set_eq(&self, other: &MutSet<T>) -> (r: bool)
        ensures
            r == (self@ =~= other@),
    {
        proof {
            use_type_invariant(&*self);
            use_type_invariant(&*other);
            lemma_map_of_len(self.entries());
            lemma_map_of_len(other.entries());
        }
        if self.cols.ids.len() != other.cols.ids.len() {
            proof {
                if self@ =~= other@ {
                    assert(self@.dom().len() == other@.dom().len());
                }
            }
            return false;
        }
        let n = self.cols.ids.len();
        let mut i: usize = 0;
        while i < n
            invariant
                n == self.cols.ids@.len(),
                n == self.cols.ctxs@.len(),
                n == self.entries().len(),
                i <= n,
                distinct_keys(self.entries()),
                forall|j: int|
                    0 <= j < i ==> other@.contains_key((#[trigger] self.entries()[j]).0)
                        && other@[self.entries()[j].0] == self.entries()[j].1,
            decreases n - i,
        {
            proof {
                use_type_invariant(&*self);
                lemma_map_of_get(self.entries(), i as int);
            }
            match other.id_get(&self.cols.ids[i]) {
                None => {
                    proof {
                        assert(self@.contains_key(self.entries()[i as int].0));
                        assert(!other@.contains_key(self.entries()[i as int].0));
                    }
                    return false;
                },
                Some(p) => {
                    if !T::eq_ctx(&self.cols.ctxs[i], p.1) {
                        proof {
                            let k = self.entries()[i as int].0;
                            assert(self@[k] != other@[k]);
                        }
                        return false;
                    }
                },
            }
            i += 1;
        }
        proof {
            use_type_invariant(&*self);
            use_type_invariant(&*other);
            broadcast use vstd::set::group_set_axioms;

            assert forall|k: <T::Id as View>::V| #[trigger]
                other@.contains_key(k) implies self@.contains_key(k) by {
                if !self@.contains_key(k) {
                    assert forall|x: <T::Id as View>::V| #[trigger]
                        self@.dom().contains(x) implies other@.dom().remove(k).contains(x) by {
                        lemma_map_of_contains(self.entries(), x);
                        let j = choose|j: int|
                            0 <= j < self.entries().len() && self.entries()[j].0 == x;
                    }
                    vstd::set_lib::lemma_len_subset(self@.dom(), other@.dom().remove(k));
                }
            }
            assert forall|k: <T::Id as View>::V| #[trigger]
                self@.contains_key(k) implies other@.contains_key(k) && self@[k] == other@[k] by {
                lemma_map_of_contains(self.entries(), k);
                let j = choose|j: int| 0 <= j < self.entries().len() && self.entries()[j].0 == k;
                lemma_map_of_get(self.entries(), j);
            }
        }
        true
    }
}

} // verus!
