//! The persistence boundary: a container is written out as a flat sequence
//! of whole items and read back by repeated insertion.
//!
//! The emitted order is the backing order and carries no meaning. Reading
//! follows the replace rule: a later item with an already-seen identity
//! silently overwrites the earlier one. Readers that must reject duplicate
//! identities have to check for them themselves.

use vstd::prelude::*;

use crate::item::{items_view, Item};
use crate::model::{distinct_keys, first_map_of, lemma_map_of_contains, lemma_map_of_get,
    lemma_map_of_len, map_of};
use crate::set::MutSet;

verus! {

impl<T: Item> MutSet<T> {
    /// Writes the container out as a flat sequence of whole items, identity
    /// and context fields together: a duplicate-free sequence describing
    /// exactly the stored content.
    pub fn encode(&self) -> (r: Vec<T>)
        ensures
            items_view(r@) == self.entries(),
            distinct_keys(items_view(r@)),
            map_of(items_view(r@)) == self@,
    {
        self.whole()
    }

    /// Reads a container back from a flat sequence of whole items, by the
    /// replace rule: a later item whose identity was already seen overwrites
    /// the earlier one.
    pub fn decode(items: Vec<T>) -> (r: Self)
        ensures
            r@ == map_of(items_view(items@)),
    {
        let ghost iv = items_view(items@);
        let mut items = items;
        let ghost items0 = items@;
        let mut s: MutSet<T> = MutSet::new();
        let ghost mut k: int = 0;
        while items.len() > 0
            invariant
                0 <= k <= iv.len(),
                iv == items_view(items0),
                iv.len() == items0.len(),
                items@ =~= items0.skip(k),
                s@ == map_of(iv.take(k)),
            decreases items@.len(),
        {
            let it = items.remove(0);
            let ghost id_v = it.id_of();
            let ghost ctx_v = it.ctx_of();
            proof {
                assert(items@ =~= items0.skip(k + 1));
                assert(it == items0[k]);
                assert(iv.take(k + 1).drop_last() =~= iv.take(k));
                assert(iv.take(k + 1).last() == (id_v, ctx_v));
            }
            let _ = s.replace(it);
            proof {
                assert(s@ == map_of(iv.take(k)).insert(id_v, ctx_v));
                k = k + 1;
            }
        }
        proof {
            assert(iv.take(k) =~= iv);
        }
        s
    }

    /// Builds a container from a sequence of whole items by the live insert
    /// rule: an item whose identity was already seen is dropped.
    pub fn from_vec(items: Vec<T>) -> (r: Self)
        ensures
            r@ == first_map_of(items_view(items@)),
    {
        let ghost iv = items_view(items@);
        let mut items = items;
        let ghost items0 = items@;
        let mut s: MutSet<T> = MutSet::new();
        let ghost mut k: int = 0;
        while items.len() > 0
            invariant
                0 <= k <= iv.len(),
                iv == items_view(items0),
                iv.len() == items0.len(),
                items@ =~= items0.skip(k),
                s@ == first_map_of(iv.take(k)),
            decreases items@.len(),
        {
            let it = items.remove(0);
            let ghost id_v = it.id_of();
            let ghost ctx_v = it.ctx_of();
            proof {
                assert(items@ =~= items0.skip(k + 1));
                assert(it == items0[k]);
                assert(iv.take(k + 1).drop_last() =~= iv.take(k));
                assert(iv.take(k + 1).last() == (id_v, ctx_v));
            }
            let _ = s.insert(it);
            proof {
                k = k + 1;
            }
        }
        proof {
            assert(iv.take(k) =~= iv);
        }
        s
    }
}

/// A duplicate-free flat sequence decodes to exactly its own items, set-wise
/// by identity: every item of the sequence is stored under its identity with
/// its context, and every stored identity comes from the sequence. Since
/// `encode` emits a duplicate-free sequence describing the encoded set,
/// decoding an encoding restores that set exactly.
pub proof fn lemma_decode_round_trip<T: Item>(items: Seq<T>)
    requires
        distinct_keys(items_view(items)),
    ensures
        map_of(items_view(items)).dom().finite(),
        map_of(items_view(items)).dom().len() == items.len(),
        forall|i: int|
            0 <= i < items.len() ==> map_of(items_view(items)).contains_key(
                (#[trigger] items[i]).id_of(),
            ) && map_of(items_view(items))[items[i].id_of()] == items[i].ctx_of(),
        forall|k: <T::Id as View>::V| #[trigger]
            map_of(items_view(items)).contains_key(k) ==> exists|i: int|
                0 <= i < items.len() && (#[trigger] items[i]).id_of() == k,
{
    lemma_map_of_len(items_view(items));
    assert forall|i: int|
        0 <= i < items.len() implies map_of(items_view(items)).contains_key(
        (#[trigger] items[i]).id_of(),
    ) && map_of(items_view(items))[items[i].id_of()] == items[i].ctx_of() by {
        lemma_map_of_get(items_view(items), i);
    }
    assert forall|k: <T::Id as View>::V| #[trigger]
        map_of(items_view(items)).contains_key(k) implies exists|i: int|
        0 <= i < items.len() && (#[trigger] items[i]).id_of() == k by {
        lemma_map_of_contains(items_view(items), k);
        let i = choose|i: int| 0 <= i < items_view(items).len() && items_view(items)[i].0 == k;
        assert(items[i].id_of() == k);
    }
}

} // verus!
