//! A worked item type: two identity fields and two context fields.
//!
//! This is the shape a descriptor generator would produce for a record
//! declared with `id1` and `id2` as its identity: the identity and context
//! bundles, the [`Item`] implementation wiring them up, and a read-only-id
//! projection of the whole record.

use vstd::prelude::*;

use crate::item::Item;

verus! {

/// A record whose identity is `(id1, id2)` and whose context is
/// `(ctx1, ctx2)`.
#[derive(Debug)]
pub struct MyItem {
    pub id1: usize,
    pub id2: String,
    pub ctx1: isize,
    pub ctx2: String,
}

/// The identity bundle of a [`MyItem`].
#[derive(Debug)]
pub struct MyItemId {
    pub id1: usize,
    pub id2: String,
}

/// The context bundle of a [`MyItem`].
#[derive(Debug)]
pub struct MyItemCtx {
    pub ctx1: isize,
    pub ctx2: String,
}

impl View for MyItemId {
    type V = (int, Seq<char>);

    open spec fn view(&self) -> (int, Seq<char>) {
        (self.id1 as int, self.id2@)
    }
}

impl View for MyItemCtx {
    type V = (int, Seq<char>);

    open spec fn view(&self) -> (int, Seq<char>) {
        (self.ctx1 as int, self.ctx2@)
    }
}

impl MyItemId {
    /// Builds the identity bundle from its fields.
    pub fn new(id1: usize, id2: String) -> (r: Self)
        ensures
            r@ == (id1 as int, id2@),
    {
        MyItemId { id1, id2 }
    }
}

impl MyItem {
    /// Builds the record from its fields.
    pub fn new(id1: usize, id2: String, ctx1: isize, ctx2: String) -> (r: Self)
        ensures
            r.id_of() == (id1 as int, id2@),
            r.ctx_of() == (ctx1 as int, ctx2@),
    {
        MyItem { id1, id2, ctx1, ctx2 }
    }
}

impl Item for MyItem {
    type Id = MyItemId;

    type Ctx = MyItemCtx;

    open spec fn id_of(&self) -> (int, Seq<char>) {
        (self.id1 as int, self.id2@)
    }

    open spec fn ctx_of(&self) -> (int, Seq<char>) {
        (self.ctx1 as int, self.ctx2@)
    }

    open spec fn id_le(a: (int, Seq<char>), b: (int, Seq<char>)) -> bool {
        a.0 <= b.0
    }

    open spec fn default_ctx_of() -> (int, Seq<char>) {
        (0, Seq::empty())
    }

    fn split(self) -> (r: (MyItemId, MyItemCtx)) {
        let MyItem { id1, id2, ctx1, ctx2 } = self;
        (MyItemId { id1, id2 }, MyItemCtx { ctx1, ctx2 })
    }

    fn compose(id: MyItemId, ctx: MyItemCtx) -> (r: Self) {
        MyItem { id1: id.id1, id2: id.id2, ctx1: ctx.ctx1, ctx2: ctx.ctx2 }
    }

    fn id(&self) -> (r: MyItemId) {
        MyItemId { id1: self.id1, id2: self.id2.clone() }
    }

    fn eq_id(a: &MyItemId, b: &MyItemId) -> (r: bool) {
        a.id1 == b.id1 && a.id2 == b.id2
    }

    fn dup_id(id: &MyItemId) -> (r: MyItemId) {
        MyItemId { id1: id.id1, id2: id.id2.clone() }
    }

    fn dup_ctx(ctx: &MyItemCtx) -> (r: MyItemCtx) {
        MyItemCtx { ctx1: ctx.ctx1, ctx2: ctx.ctx2.clone() }
    }

    fn eq_ctx(a: &MyItemCtx, b: &MyItemCtx) -> (r: bool) {
        a.ctx1 == b.ctx1 && a.ctx2 == b.ctx2
    }

    fn le_id(a: &MyItemId, b: &MyItemId) -> (r: bool) {
        a.id1 <= b.id1
    }

    fn default_ctx() -> (r: MyItemCtx) {
        MyItemCtx { ctx1: 0, ctx2: String::new() }
    }

    proof fn lemma_id_le_total(a: (int, Seq<char>), b: (int, Seq<char>)) {
    }

    proof fn lemma_id_le_trans(a: (int, Seq<char>), b: (int, Seq<char>), c: (int, Seq<char>)) {
    }
}

/// A [`MyItem`] seen through the stored-item lens: the identity fields can
/// be read but not written, while the context fields stay public.
#[derive(Debug)]
pub struct MyItemIdReadOnly {
    id1: usize,
    id2: String,
    pub ctx1: isize,
    pub ctx2: String,
}

impl MyItemIdReadOnly {
    /// The first identity field.
    pub closed spec fn spec_id1(&self) -> usize {
        self.id1
    }

    /// The second identity field.
    pub closed spec fn spec_id2(&self) -> Seq<char> {
        self.id2@
    }

    /// The first context field.
    pub closed spec fn spec_ctx1(&self) -> isize {
        self.ctx1
    }

    /// The second context field.
    pub closed spec fn spec_ctx2(&self) -> Seq<char> {
        self.ctx2@
    }

    /// Wraps a record, freezing its identity fields.
    pub fn of_item(item: MyItem) -> (r: Self)
        ensures
            r.spec_id1() == item.id1,
            r.spec_id2() == item.id2@,
            r.spec_ctx1() == item.ctx1,
            r.spec_ctx2() == item.ctx2@,
    {
        let MyItem { id1, id2, ctx1, ctx2 } = item;
        MyItemIdReadOnly { id1, id2, ctx1, ctx2 }
    }

    /// Releases the record whole again.
    pub fn into_item(self) -> (r: MyItem)
        ensures
            r.id1 == self.spec_id1(),
            r.id2@ == self.spec_id2(),
            r.ctx1 == self.spec_ctx1(),
            r.ctx2@ == self.spec_ctx2(),
    {
        let MyItemIdReadOnly { id1, id2, ctx1, ctx2 } = self;
        MyItem { id1, id2, ctx1, ctx2 }
    }

    /// Rewrites the first context field.
    pub fn set_ctx1(&mut self, v: isize)
        ensures
            final(self).spec_id1() == old(self).spec_id1(),
            final(self).spec_id2() == old(self).spec_id2(),
            final(self).spec_ctx1() == v,
            final(self).spec_ctx2() == old(self).spec_ctx2(),
    {
        self.ctx1 = v;
    }

    /// Rewrites the second context field.
    pub fn set_ctx2(&mut self, v: String)
        ensures
            final(self).spec_id1() == old(self).spec_id1(),
            final(self).spec_id2() == old(self).spec_id2(),
            final(self).spec_ctx1() == old(self).spec_ctx1(),
            final(self).spec_ctx2() == v@,
    {
        self.ctx2 = v;
    }

    /// Reads the first identity field.
    pub fn id1(&self) -> (r: usize)
        ensures
            r == self.spec_id1(),
    {
        self.id1
    }

    /// Reads the second identity field.
    pub fn id2(&self) -> (r: &str)
        ensures
            r@ == self.spec_id2(),
    {
        self.id2.as_str()
    }
}

} // verus!
