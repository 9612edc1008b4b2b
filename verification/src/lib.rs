//! A fixed-capacity, order-preserving sequence container.
//!
//! A [`CVec`] is an ordered, fixed-length array of optional slots: each slot
//! is either empty (`None`) or occupied (`Some(value)`). The capacity is set
//! at construction and never changes for a given instance; growth produces a
//! new instance with one more slot. Insertion fills the first empty slot,
//! removal clears a slot (optionally re-compacting the gaps away), and
//! compaction shifts occupied slots left until no occupied slot follows an
//! empty one, preserving their relative order.
//!
//! Equality between two sequences is positional: two sequences are equal
//! exactly when every slot index holds the same state.

mod cvec;
mod model;

pub use cvec::cvec_eq_spec;
pub use cvec::slot_eq_spec;
pub use cvec::CVec;
pub use cvec::CVecError;
pub use model::compact_model;
pub use model::empty_model;
pub use model::fill_model;
pub use model::first_empty;
pub use model::has_gap;
pub use model::insert_model;
pub use model::is_packed;
pub use model::lemma_compact_idempotent;
pub use model::lemma_compact_preserves_order;
pub use model::lemma_first_empty_props;
pub use model::lemma_insert_get_round_trip;
pub use model::lemma_shift_increases_trailing;
pub use model::lemma_shift_preserves_occupied;
pub use model::occupied_values;
pub use model::shift_left_at;
pub use model::trailing_empties;
