//! The upsert protocol: a handle for one identity that is either occupied
//! or vacant, settled by one lookup and consumed by one terminal operation.
//!
//! A handle remembers only the identity it was made for and which of the two
//! states the set was in; the terminal operations take the set again and
//! require that the recorded state still holds, which is the case whenever
//! the set was not touched in between.

use vstd::prelude::*;

use crate::item::Item;
use crate::set::MutSet;

verus! {

/// A handle for an identity that was present when the entry was made.
pub struct OccupiedEntry<T: Item> {
    id: T::Id,
}

/// A handle for an identity that was absent when the entry was made.
pub struct VacantEntry<T: Item> {
    id: T::Id,
}

/// A settled upsert handle: one identity, either present or absent.
pub enum Entry<T: Item> {
    /// The identity was present.
    Occupied(OccupiedEntry<T>),
    /// The identity was absent.
    Vacant(VacantEntry<T>),
}

impl<T: Item> OccupiedEntry<T> {
    /// The identity this handle was made for.
    pub closed spec fn key_of(&self) -> <T::Id as View>::V {
        self.id@
    }

    /// The identity this handle was made for.
    pub fn key(&self) -> (r: &T::Id)
        ensures
            r@ == self.key_of(),
    {
        &self.id
    }

    /// The stored item, split into its identity and context parts.
    pub fn get<'a>(&self, set: &'a MutSet<T>) -> (r: (&'a T::Id, &'a T::Ctx))
        requires
            set@.contains_key(self.key_of()),
        ensures
            r.0@ == self.key_of(),
            r.1@ == set@[self.key_of()],
    {
        match set.id_get(&self.id) {
            Some(p) => p,
            None => vstd::pervasive::unreached(),
        }
    }

    /// Mutable access to the stored item's context.
    pub fn get_mut<'a>(&self, set: &'a mut MutSet<T>) -> (r: &'a mut T::Ctx)
        requires
            old(set)@.contains_key(self.key_of()),
        ensures
            (*r)@ == old(set)@[self.key_of()],
            final(set)@ == old(set)@.insert(self.key_of(), (*final(r))@),
    {
        match set.id_get_mut(&self.id) {
            Some(c) => c,
            None => vstd::pervasive::unreached(),
        }
    }

    /// Consumes the handle into mutable access to the stored item's context.
    pub fn into_mut<'a>(self, set: &'a mut MutSet<T>) -> (r: &'a mut T::Ctx)
        requires
            old(set)@.contains_key(self.key_of()),
        ensures
            (*r)@ == old(set)@[self.key_of()],
            final(set)@ == old(set)@.insert(self.key_of(), (*final(r))@),
    {
        self.get_mut(set)
    }

    /// Replaces the stored item with `item`, which must carry the same
    /// identity, and hands the old item back.
    pub fn insert(&self, set: &mut MutSet<T>, item: T) -> (r: T)
        requires
            old(set)@.contains_key(self.key_of()),
            item.id_of() == self.key_of(),
        ensures
            r.id_of() == self.key_of(),
            r.ctx_of() == old(set)@[self.key_of()],
            final(set)@ == old(set)@.insert(self.key_of(), item.ctx_of()),
    {
        match set.replace(item) {
            Some(o) => o,
            None => vstd::pervasive::unreached(),
        }
    }

    /// Removes the stored item and hands it back whole.
    pub fn remove(self, set: &mut MutSet<T>) -> (r: T)
        requires
            old(set)@.contains_key(self.key_of()),
        ensures
            r.id_of() == self.key_of(),
            r.ctx_of() == old(set)@[self.key_of()],
            final(set)@ == old(set)@.remove(self.key_of()),
    {
        match set.id_take(&self.id) {
            Some(t) => t,
            None => vstd::pervasive::unreached(),
        }
    }

    /// Removes the stored item and hands back its identity and the whole
    /// item.
    pub fn remove_entry(self, set: &mut MutSet<T>) -> (r: (T::Id, T))
        requires
            old(set)@.contains_key(self.key_of()),
        ensures
            r.0@ == self.key_of(),
            r.1.id_of() == self.key_of(),
            r.1.ctx_of() == old(set)@[self.key_of()],
            final(set)@ == old(set)@.remove(self.key_of()),
    {
        let id = T::dup_id(&self.id);
        let t = self.remove(set);
        (id, t)
    }
}

impl<T: Item> VacantEntry<T> {
    /// The identity this handle was made for.
    pub closed spec fn key_of(&self) -> <T::Id as View>::V {
        self.id@
    }

    /// The identity this handle was made for.
    pub fn key(&self) -> (r: &T::Id)
        ensures
            r@ == self.key_of(),
    {
        &self.id
    }

    /// Consumes the handle into the identity it was made for.
    pub fn into_key(self) -> (r: T::Id)
        ensures
            r@ == self.key_of(),
    {
        self.id
    }

    /// Stores `item`, which must carry this handle's identity, and hands
    /// back mutable access to its context.
    pub fn insert<'a>(self, set: &'a mut MutSet<T>, item: T) -> (r: &'a mut T::Ctx)
        requires
            !old(set)@.contains_key(self.key_of()),
            item.id_of() == self.key_of(),
        ensures
            (*r)@ == item.ctx_of(),
            final(set)@ == old(set)@.insert(self.key_of(), (*final(r))@),
    {
        let ghost k = self.key_of();
        let ghost c0 = item.ctx_of();
        let inserted = set.insert(item);
        proof {
            assert forall|x: <T::Ctx as View>::V| #[trigger]
                old(set)@.insert(k, c0).insert(k, x) == old(set)@.insert(k, x) by {
                assert(old(set)@.insert(k, c0).insert(k, x) =~= old(set)@.insert(k, x));
            }
        }
        match set.id_get_mut(&self.id) {
            Some(c) => c,
            None => vstd::pervasive::unreached(),
        }
    }

    /// Stores `item`, which must carry this handle's identity, and hands
    /// back an occupied handle for it.
    pub fn insert_entry(self, set: &mut MutSet<T>, item: T) -> (r: OccupiedEntry<T>)
        requires
            !old(set)@.contains_key(self.key_of()),
            item.id_of() == self.key_of(),
        ensures
            r.key_of() == self.key_of(),
            final(set)@ == old(set)@.insert(self.key_of(), item.ctx_of()),
    {
        let _ = set.insert(item);
        OccupiedEntry { id: self.id }
    }
}

impl<T: Item> Entry<T> {
    /// The identity this entry was made for.
    pub open spec fn key_of(&self) -> <T::Id as View>::V {
        match self {
            Entry::Occupied(o) => o.key_of(),
            Entry::Vacant(v) => v.key_of(),
        }
    }

    /// Whether the entry's recorded state matches the set: an occupied
    /// entry's identity is present, a vacant entry's absent.
    pub open spec fn valid(
        &self,
        m: Map<<T::Id as View>::V, <T::Ctx as View>::V>,
    ) -> bool {
        match self {
            Entry::Occupied(o) => m.contains_key(o.key_of()),
            Entry::Vacant(v) => !m.contains_key(v.key_of()),
        }
    }

    /// The identity this entry was made for.
    pub fn key(&self) -> (r: &T::Id)
        ensures
            r@ == self.key_of(),
    {
        match self {
            Entry::Occupied(o) => o.key(),
            Entry::Vacant(v) => v.key(),
        }
    }

    /// If vacant, stores an item made of this entry's identity and the
    /// context `default` produces; either way hands back mutable access to
    /// the stored context.
    pub fn or_insert_with<'a, F: FnOnce() -> T::Ctx>(
        self,
        set: &'a mut MutSet<T>,
        default: F,
    ) -> (r: &'a mut T::Ctx)
        requires
            self.valid(old(set)@),
            default.requires(()),
        ensures
            old(set)@.contains_key(self.key_of()) ==> (*r)@ == old(set)@[self.key_of()],
            !old(set)@.contains_key(self.key_of()) ==> exists|c: T::Ctx|
                #![trigger default.ensures((), c)]
                default.ensures((), c) && (*r)@ == c@,
            final(set)@ == old(set)@.insert(self.key_of(), (*final(r))@),
    {
        match self {
            Entry::Occupied(o) => o.into_mut(set),
            Entry::Vacant(v) => {
                let ctx = default();
                let id = T::dup_id(&v.id);
                v.insert(set, T::compose(id, ctx))
            },
        }
    }

    /// If vacant, stores the item `default` builds from this entry's
    /// identity; either way hands back mutable access to the stored context.
    /// `default` must build an item carrying the identity it was given.
    pub fn or_insert_with_key<'a, F: FnOnce(&T::Id) -> T>(
        self,
        set: &'a mut MutSet<T>,
        default: F,
    ) -> (r: &'a mut T::Ctx)
        requires
            self.valid(old(set)@),
            forall|k: &T::Id| k@ == self.key_of() ==> #[trigger] default.requires((k,)),
            forall|k: &T::Id, t: T|
                k@ == self.key_of() && #[trigger] default.ensures((k,), t) ==> t.id_of()
                    == self.key_of(),
        ensures
            old(set)@.contains_key(self.key_of()) ==> (*r)@ == old(set)@[self.key_of()],
            !old(set)@.contains_key(self.key_of()) ==> exists|k: &T::Id, t: T|
                #![trigger default.ensures((k,), t)]
                k@ == self.key_of() && default.ensures((k,), t) && (*r)@ == t.ctx_of(),
            final(set)@ == old(set)@.insert(self.key_of(), (*final(r))@),
    {
        match self {
            Entry::Occupied(o) => o.into_mut(set),
            Entry::Vacant(v) => {
                let item = default(&v.id);
                v.insert(set, item)
            },
        }
    }

    /// If vacant, stores an item made of this entry's identity and the
    /// default context; either way hands back mutable access to the stored
    /// context.
    pub fn or_default<'a>(self, set: &'a mut MutSet<T>) -> (r: &'a mut T::Ctx)
        requires
            self.valid(old(set)@),
        ensures
            old(set)@.contains_key(self.key_of()) ==> (*r)@ == old(set)@[self.key_of()],
            !old(set)@.contains_key(self.key_of()) ==> (*r)@ == T::default_ctx_of(),
            final(set)@ == old(set)@.insert(self.key_of(), (*final(r))@),
    {
        match self {
            Entry::Occupied(o) => o.into_mut(set),
            Entry::Vacant(v) => {
                let id = T::dup_id(&v.id);
                v.insert(set, T::compose(id, T::default_ctx()))
            },
        }
    }

    /// If occupied, replaces the stored context by what `f` makes of it; a
    /// vacant entry is handed back untouched. Either way the entry survives
    /// for chaining.
    pub fn and_modify<F: FnOnce(&T::Ctx) -> T::Ctx>(self, set: &mut MutSet<T>, f: F) -> (r: Self)
        requires
            self.valid(old(set)@),
            forall|c: &T::Ctx| #[trigger] f.requires((c,)),
        ensures
            r.key_of() == self.key_of(),
            r is Occupied <==> self is Occupied,
            r.valid(final(set)@),
            self is Vacant ==> final(set)@ == old(set)@,
            self is Occupied ==> exists|b: &T::Ctx, c: T::Ctx|
                #![trigger f.ensures((b,), c)]
                b@ == old(set)@[self.key_of()] && f.ensures((b,), c) && final(set)@ == old(
                    set,
                )@.insert(self.key_of(), c@),
    {
        match self {
            Entry::Occupied(o) => {
                let nc = match set.id_get(&o.id) {
                    Some(p) => f(p.1),
                    None => vstd::pervasive::unreached(),
                };
                let ghost nc_v = nc@;
                match set.id_get_mut(&o.id) {
                    Some(c) => {
                        *c = nc;
                    },
                    None => vstd::pervasive::unreached(),
                }
                Entry::Occupied(o)
            },
            Entry::Vacant(v) => Entry::Vacant(v),
        }
    }

    /// Replaces or stores `item`, which must carry this entry's identity,
    /// and hands back an occupied handle for it.
    pub fn insert_entry(self, set: &mut MutSet<T>, item: T) -> (r: OccupiedEntry<T>)
        requires
            item.id_of() == self.key_of(),
        ensures
            r.key_of() == self.key_of(),
            final(set)@ == old(set)@.insert(self.key_of(), item.ctx_of()),
    {
        let _ = set.replace(item);
        match self {
            Entry::Occupied(o) => o,
            Entry::Vacant(v) => OccupiedEntry { id: v.id },
        }
    }
}

impl<T: Item> MutSet<T> {
    /// Settles an upsert handle for `id`: occupied when an item with that
    /// identity is stored, vacant otherwise.
    pub fn id_entry(&self, id: &T::Id) -> (e: Entry<T>)
        ensures
            e.key_of() == id@,
            e is Occupied <==> self@.contains_key(id@),
            e.valid(self@),
    {
        if self.id_contains(id) {
            Entry::Occupied(OccupiedEntry { id: T::dup_id(id) })
        } else {
            Entry::Vacant(VacantEntry { id: T::dup_id(id) })
        }
    }
}

} // verus!
