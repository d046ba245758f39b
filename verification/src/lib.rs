//! An identity-partitioned mutable set.
//!
//! Every element of the container carries two groups of fields: identity
//! fields, which determine the element's key and may never change while the
//! element is stored, and context fields, which may be mutated in place at
//! any time. The [`Item`] trait describes that split; [`MutSet`] is the
//! container built on it. Mutable access paths hand out only the context
//! part of a stored item, so the key an item is stored under can never fall
//! out of step with its identity fields.

mod algebra;
mod codec;
mod entry;
mod hasher;
mod item;
mod laws;
mod model;
mod prototype;
mod set;

pub use codec::lemma_decode_round_trip;
pub use entry::Entry;
pub use entry::OccupiedEntry;
pub use entry::VacantEntry;
pub use hasher::NoHashBuildHasher;
pub use hasher::NoHashHasher;
pub use item::Item;
pub use item::items_view;
pub use item::sorted_ids;
pub use laws::lemma_context_update_keeps_identities;
pub use laws::lemma_difference_self;
pub use laws::lemma_duplicate_insert;
pub use laws::lemma_insert_then_get;
pub use laws::lemma_intersection_commutes;
pub use laws::lemma_subset_reflexive;
pub use laws::lemma_union_self;
pub use model::distinct_keys;
pub use model::filter_by;
pub use model::first_map_of;
pub use model::lemma_filter_by;
pub use model::lemma_map_of_contains;
pub use model::lemma_map_of_get;
pub use model::lemma_map_of_len;
pub use model::map_of;
pub use prototype::MyItem;
pub use prototype::MyItemCtx;
pub use prototype::MyItemId;
pub use prototype::MyItemIdReadOnly;
pub use set::CapacityError;
pub use set::MutSet;
