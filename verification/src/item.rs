//! The contract between the container and its element type: a record split
//! into an immutable identity part and a freely mutable context part.

use vstd::prelude::*;

verus! {

/// Describes a record type split into an identity part, which determines
/// the storage key and may never change while the record is stored, and a
/// context part, which may be rewritten freely.
///
/// The abstract value of an item is the pair of its identity view and its
/// context view; `split` and `compose` move between the record and that
/// pair without losing either half.
pub trait Item: Sized {
    /// The owned identity value: the key by which elements are stored and
    /// looked up.
    type Id: View;

    /// The owned bundle of context fields.
    type Ctx: View;

    /// The abstract identity of this item.
    spec fn id_of(&self) -> <Self::Id as View>::V;

    /// The abstract context of this item.
    spec fn ctx_of(&self) -> <Self::Ctx as View>::V;

    /// The ordering on abstract identities used by the sorted views: a
    /// total preorder (see the two lemmas below).
    spec fn id_le(a: <Self::Id as View>::V, b: <Self::Id as View>::V) -> bool;

    /// The abstract context a vacant upsert starts from.
    spec fn default_ctx_of() -> <Self::Ctx as View>::V;

    /// Splits the item into its identity and context parts.
    fn split(self) -> (r: (Self::Id, Self::Ctx))
        ensures
            r.0@ == self.id_of(),
            r.1@ == self.ctx_of(),
    ;

    /// Rebuilds an item from an identity and a context.
    fn compose(id: Self::Id, ctx: Self::Ctx) -> (r: Self)
        ensures
            r.id_of() == id@,
            r.ctx_of() == ctx@,
    ;

    /// The identity of this item, as an owned value.
    fn id(&self) -> (r: Self::Id)
        ensures
            r@ == self.id_of(),
    ;

    /// Tests two identity values for equality.
    fn eq_id(a: &Self::Id, b: &Self::Id) -> (r: bool)
        ensures
            r == (a@ == b@),
    ;

    /// Copies an identity value.
    fn dup_id(id: &Self::Id) -> (r: Self::Id)
        ensures
            r@ == id@,
    ;

    /// Copies a context value.
    fn dup_ctx(ctx: &Self::Ctx) -> (r: Self::Ctx)
        ensures
            r@ == ctx@,
    ;

    /// Tests two context values for equality.
    fn eq_ctx(a: &Self::Ctx, b: &Self::Ctx) -> (r: bool)
        ensures
            r == (a@ == b@),
    ;

    /// Decides the ordering on two identity values.
    fn le_id(a: &Self::Id, b: &Self::Id) -> (r: bool)
        ensures
            r == Self::id_le(a@, b@),
    ;

    /// The context a vacant upsert starts from.
    fn default_ctx() -> (r: Self::Ctx)
        ensures
            r@ == Self::default_ctx_of(),
    ;

    /// Any two identities are ordered one way or the other.
    proof fn lemma_id_le_total(a: <Self::Id as View>::V, b: <Self::Id as View>::V)
        ensures
            Self::id_le(a, b) || Self::id_le(b, a),
    ;

    /// The identity ordering is transitive.
    proof fn lemma_id_le_trans(
        a: <Self::Id as View>::V,
        b: <Self::Id as View>::V,
        c: <Self::Id as View>::V,
    )
        requires
            Self::id_le(a, b),
            Self::id_le(b, c),
        ensures
            Self::id_le(a, c),
    ;
}

/// Whether the pairs are sorted by the item type's identity ordering.
pub open spec fn sorted_ids<T: Item>(
    s: Seq<(<T::Id as View>::V, <T::Ctx as View>::V)>,
) -> bool {
    forall|a: int, b: int| 0 <= a < b < s.len() ==> T::id_le(s[a].0, s[b].0)
}

/// The identity/context pairs described by a sequence of whole items.
pub open spec fn items_view<T: Item>(s: Seq<T>) -> Seq<
    (<T::Id as View>::V, <T::Ctx as View>::V),
> {
    s.map(|i: int, t: T| (t.id_of(), t.ctx_of()))
}

} // verus!
