//! The laws of the container, stated over the abstract model that every
//! operation's contract speaks of: the finite map from identity views to
//! context views.

use vstd::prelude::*;

use crate::item::Item;

verus! {

/// Adding a fresh item and then looking its identity up finds it: after
/// `insert(x)` on a set not holding `x`'s identity, `id_get(x.id())` is the
/// item `x`, identity and context alike.
pub proof fn lemma_insert_then_get<T: Item>(
    m: Map<<T::Id as View>::V, <T::Ctx as View>::V>,
    item: T,
)
    requires
        !m.contains_key(item.id_of()),
    ensures
        m.insert(item.id_of(), item.ctx_of()).contains_key(item.id_of()),
        m.insert(item.id_of(), item.ctx_of())[item.id_of()] == item.ctx_of(),
{
}

/// A second insert under the same identity changes nothing: after
/// `insert(x)`, the identity of any `y` with `y.id() == x.id()` is present,
/// so `insert(y)` returns false and leaves the set as it is, and the length
/// moves only on the first insert.
pub proof fn lemma_duplicate_insert<T: Item>(
    m: Map<<T::Id as View>::V, <T::Ctx as View>::V>,
    x: T,
    y: T,
)
    requires
        x.id_of() == y.id_of(),
        m.dom().finite(),
    ensures
        m.insert(x.id_of(), x.ctx_of()).contains_key(y.id_of()),
        m.insert(x.id_of(), x.ctx_of()).dom().len() == if m.contains_key(x.id_of()) {
            m.dom().len()
        } else {
            m.dom().len() + 1
        },
{
    vstd::set::axiom_set_insert_len(m.dom(), x.id_of());
    assert(m.insert(x.id_of(), x.ctx_of()).dom() =~= m.dom().insert(x.id_of()));
}

/// Rewriting the context stored under an identity keeps the set of stored
/// identities as it is and leaves the item reachable under its identity,
/// with the new context: what every context-mutation path (`id_get_mut`,
/// `iter_mut`, an occupied entry) does to the model.
pub proof fn lemma_context_update_keeps_identities<T: Item>(
    m: Map<<T::Id as View>::V, <T::Ctx as View>::V>,
    k: <T::Id as View>::V,
    c: <T::Ctx as View>::V,
)
    requires
        m.contains_key(k),
    ensures
        m.insert(k, c).dom() == m.dom(),
        m.insert(k, c)[k] == c,
        forall|k2: <T::Id as View>::V|
            k2 != k && #[trigger] m.contains_key(k2) ==> m.insert(k, c)[k2] == m[k2],
{
    assert(m.insert(k, c).dom() =~= m.dom());
}

/// The difference of a set with itself is empty.
pub proof fn lemma_difference_self<K, V>(m: Map<K, V>)
    ensures
        m.remove_keys(m.dom()) == Map::<K, V>::empty(),
{
    assert(m.remove_keys(m.dom()) =~= Map::<K, V>::empty());
}

/// The union of a set with itself is that set again.
pub proof fn lemma_union_self<K, V>(m: Map<K, V>)
    ensures
        m.union_prefer_right(m) == m,
{
    assert(m.union_prefer_right(m) =~= m);
}

/// Intersection is commutative as a set of identities: whichever side the
/// items are read from, the identities present are those shared by both.
pub proof fn lemma_intersection_commutes<K, V>(a: Map<K, V>, b: Map<K, V>)
    ensures
        a.restrict(b.dom()).dom() == b.restrict(a.dom()).dom(),
{
    assert(a.restrict(b.dom()).dom() =~= b.restrict(a.dom()).dom());
}

/// Every set is a subset of itself.
pub proof fn lemma_subset_reflexive<K, V>(m: Map<K, V>)
    ensures
        m.dom().subset_of(m.dom()),
{
}

} // verus!
