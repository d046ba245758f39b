//! Set algebra over the container: difference, union, intersection and the
//! comparison predicates, all keyed by identity.
//!
//! Each operation produces a flat sequence of whole items rather than a new
//! container; the sequence never repeats an identity, so feeding it to
//! [`MutSet::decode`](crate::MutSet) rebuilds a container with exactly that
//! content.

use vstd::prelude::*;

use crate::item::{items_view, Item};
use crate::model::{distinct_keys, lemma_map_of_concat, lemma_map_of_contains, lemma_map_of_get,
    lemma_map_of_len, lemma_map_of_push, map_of};
use crate::set::MutSet;

verus! {

impl<T: Item> MutSet<T> {
    /// The items of `self` whose membership in `other` (by identity) equals
    /// `want`: the difference for `false`, the intersection side for `true`.
    fn filter_members(&self, other: &MutSet<T>, want: bool) -> (r: Vec<T>)
        ensures
            distinct_keys(items_view(r@)),
            map_of(items_view(r@)) == if want {
                self@.restrict(other@.dom())
            } else {
                self@.remove_keys(other@.dom())
            },
    {
        let pairs = self.iter();
        let n = pairs.len();
        let mut r: Vec<T> = Vec::new();
        let mut i: usize = 0;
        while i < n
            invariant
                n == pairs@.len(),
                n == self.entries().len(),
                i <= n,
                distinct_keys(self.entries()),
                forall|j: int|
                    0 <= j < n ==> ((#[trigger] pairs@[j]).0@, pairs@[j].1@) == self.entries()[j],
                distinct_keys(items_view(r@)),
                forall|k: <T::Id as View>::V| #[trigger]
                    map_of(items_view(r@)).contains_key(k) ==> self@.contains_key(k) && map_of(
                        items_view(r@),
                    )[k] == self@[k] && (other@.dom().contains(k) == want),
                forall|j: int|
                    0 <= j < i ==> ((other@.dom().contains((#[trigger] self.entries()[j]).0)
                        == want) ==> map_of(items_view(r@)).contains_key(self.entries()[j].0)),
                forall|k: <T::Id as View>::V| #[trigger]
                    map_of(items_view(r@)).contains_key(k) ==> exists|j: int|
                        0 <= j < i && (#[trigger] self.entries()[j]).0 == k,
            decreases n - i,
        {
            proof {
                lemma_map_of_get(self.entries(), i as int);
            }
            let p = pairs[i];
            let member = other.id_contains(p.0);
            if member == want {
                let ghost r0 = items_view(r@);
                proof {
                    lemma_map_of_contains(r0, p.0@);
                    if map_of(r0).contains_key(p.0@) {
                        let j = choose|j: int| 0 <= j < i && self.entries()[j].0 == p.0@;
                        assert(false);
                    }
                }
                let item = T::compose(T::dup_id(p.0), T::dup_ctx(p.1));
                r.push(item);
                proof {
                    assert(items_view(r@) =~= r0.push((p.0@, p.1@)));
                    lemma_map_of_push(r0, (p.0@, p.1@));
                    assert forall|a: int, b: int|
                        0 <= a < b < items_view(r@).len() implies items_view(r@)[a].0
                        != items_view(r@)[b].0 by {
                        if b < r0.len() {
                            assert(r0[a].0 != r0[b].0);
                        } else {
                            lemma_map_of_get(r0, a);
                        }
                    }
                }
            }
            i += 1;
        }
        proof {
            let want_map = if want {
                self@.restrict(other@.dom())
            } else {
                self@.remove_keys(other@.dom())
            };
            assert forall|k: <T::Id as View>::V| #[trigger]
                want_map.contains_key(k) implies map_of(items_view(r@)).contains_key(k) by {
                lemma_map_of_contains(self.entries(), k);
                let j = choose|j: int| 0 <= j < self.entries().len() && self.entries()[j].0 == k;
            }
            assert(map_of(items_view(r@)) =~= want_map);
        }
        r
    }

    /// The items of `self` whose identity is absent from `other`.
    pub fn difference(&self, other: &MutSet<T>) -> (r: Vec<T>)
        ensures
            distinct_keys(items_view(r@)),
            map_of(items_view(r@)) == self@.remove_keys(other@.dom()),
    {
        self.filter_members(other, false)
    }

    /// The items of `self` whose identity is absent from `other`, followed
    /// by the items of `other` whose identity is absent from `self`.
    pub fn symmetric_difference(&self, other: &MutSet<T>) -> (r: Vec<T>)
        ensures
            distinct_keys(items_view(r@)),
            map_of(items_view(r@)) == self@.remove_keys(other@.dom()).union_prefer_right(
                other@.remove_keys(self@.dom()),
            ),
    {
        let mut r = self.difference(other);
        let ghost left = items_view(r@);
        let mut more = other.difference(self);
        let ghost right = items_view(more@);
        r.append(&mut more);
        proof {
            assert(items_view(r@) =~= left + right);
            lemma_map_of_concat(left, right);
            assert forall|a: int, b: int|
                0 <= a < b < items_view(r@).len() implies items_view(r@)[a].0 != items_view(
                r@,
            )[b].0 by {
                if a < left.len() && b >= left.len() {
                    lemma_map_of_get(left, a);
                    lemma_map_of_get(right, b - left.len());
                }
            }
        }
        r
    }

    /// The stored items present in both sets by identity, read from the
    /// smaller of the two.
    pub fn intersection(&self, other: &MutSet<T>) -> (r: Vec<T>)
        ensures
            distinct_keys(items_view(r@)),
            map_of(items_view(r@)) == if self@.dom().len() <= other@.dom().len() {
                self@.restrict(other@.dom())
            } else {
                other@.restrict(self@.dom())
            },
    {
        if self.len() <= other.len() {
            self.filter_members(other, true)
        } else {
            other.filter_members(self, true)
        }
    }

    /// Every item of the larger set, followed by the items of the smaller
    /// one whose identity the larger lacks: all identities of both sets,
    /// each exactly once, preferring the larger set's item on both.
    pub fn union(&self, other: &MutSet<T>) -> (r: Vec<T>)
        ensures
            distinct_keys(items_view(r@)),
            map_of(items_view(r@)) == if self@.dom().len() >= other@.dom().len() {
                other@.union_prefer_right(self@)
            } else {
                self@.union_prefer_right(other@)
            },
    {
        let (big, small) = if self.len() >= other.len() {
            (self, other)
        } else {
            (other, self)
        };
        let mut r = big.whole();
        let ghost left = items_view(r@);
        let mut more = small.difference(big);
        let ghost right = items_view(more@);
        r.append(&mut more);
        proof {
            assert(items_view(r@) =~= left + right);
            lemma_map_of_concat(left, right);
            assert forall|a: int, b: int|
                0 <= a < b < items_view(r@).len() implies items_view(r@)[a].0 != items_view(
                r@,
            )[b].0 by {
                if a < left.len() && b >= left.len() {
                    lemma_map_of_get(left, a);
                    lemma_map_of_get(right, b - left.len());
                }
            }
            assert(map_of(items_view(r@)) =~= small@.union_prefer_right(big@));
        }
        r
    }

    /// A copy of every stored item, in backing order.
    pub(crate) fn whole(&self) -> (r: Vec<T>)
        ensures
            items_view(r@) == self.entries(),
            distinct_keys(self.entries()),
            map_of(items_view(r@)) == self@,
    {
        let pairs = self.iter();
        let n = pairs.len();
        let mut r: Vec<T> = Vec::new();
        let mut i: usize = 0;
        while i < n
            invariant
                n == pairs@.len(),
                n == self.entries().len(),
                i <= n,
                forall|j: int|
                    0 <= j < n ==> ((#[trigger] pairs@[j]).0@, pairs@[j].1@) == self.entries()[j],
                r@.len() == i,
                items_view(r@) =~= self.entries().take(i as int),
            decreases n - i,
        {
            let p = pairs[i];
            let item = T::compose(T::dup_id(p.0), T::dup_ctx(p.1));
            r.push(item);
            proof {
                assert(items_view(r@) =~= self.entries().take(i + 1));
            }
            i += 1;
        }
        proof {
            assert(items_view(r@) =~= self.entries());
        }
        r
    }

    /// Whether the two sets share no identity.
    pub fn is_disjoint(&self, other: &MutSet<T>) -> (r: bool)
        ensures
            r == self@.dom().disjoint(other@.dom()),
    {
        let (small, big) = if self.len() <= other.len() {
            (self, other)
        } else {
            (other, self)
        };
        let pairs = small.iter();
        let n = pairs.len();
        let mut i: usize = 0;
        while i < n
            invariant
                n == pairs@.len(),
                n == small.entries().len(),
                i <= n,
                distinct_keys(small.entries()),
                small == self || small == other,
                small == self ==> big == other,
                small == other ==> big == self,
                forall|j: int|
                    0 <= j < n ==> ((#[trigger] pairs@[j]).0@, pairs@[j].1@) == small.entries()[j],
                forall|j: int|
                    0 <= j < i ==> !big@.dom().contains((#[trigger] small.entries()[j]).0),
            decreases n - i,
        {
            proof {
                lemma_map_of_get(small.entries(), i as int);
            }
            if big.id_contains(pairs[i].0) {
                return false;
            }
            i += 1;
        }
        proof {
            assert forall|k: <T::Id as View>::V|
                small@.dom().contains(k) implies !big@.dom().contains(k) by {
                lemma_map_of_contains(small.entries(), k);
                let j = choose|j: int| 0 <= j < small.entries().len() && small.entries()[j].0 == k;
            }
        }
        true
    }

    /// Whether every identity of `self` is present in `other`.
    pub fn is_subset(&self, other: &MutSet<T>) -> (r: bool)
        ensures
            r == self@.dom().subset_of(other@.dom()),
    {
        if self.len() > other.len() {
            proof {
                if self@.dom().subset_of(other@.dom()) {
                    vstd::set_lib::lemma_len_subset(self@.dom(), other@.dom());
                }
            }
            return false;
        }
        let pairs = self.iter();
        let n = pairs.len();
        let mut i: usize = 0;
        while i < n
            invariant
                n == pairs@.len(),
                n == self.entries().len(),
                i <= n,
                distinct_keys(self.entries()),
                forall|j: int|
                    0 <= j < n ==> ((#[trigger] pairs@[j]).0@, pairs@[j].1@) == self.entries()[j],
                forall|j: int|
                    0 <= j < i ==> other@.dom().contains((#[trigger] self.entries()[j]).0),
            decreases n - i,
        {
            proof {
                lemma_map_of_get(self.entries(), i as int);
            }
            if !other.id_contains(pairs[i].0) {
                return false;
            }
            i += 1;
        }
        proof {
            assert forall|k: <T::Id as View>::V|
                self@.dom().contains(k) implies other@.dom().contains(k) by {
                lemma_map_of_contains(self.entries(), k);
                let j = choose|j: int| 0 <= j < self.entries().len() && self.entries()[j].0 == k;
            }
        }
        true
    }

    /// Whether every identity of `other` is present in `self`.
    pub fn is_superset(&self, other: &MutSet<T>) -> (r: bool)
        ensures
            r == other@.dom().subset_of(self@.dom()),
    {
        other.is_subset(self)
    }
}

} // verus!
