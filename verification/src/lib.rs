//! Sequence views: reversal, split-half views, and order-preserving
//! set operations over vectors, stated and proved against their
//! mathematical sequence models.

mod reverse;
mod setops;
mod views;

pub use reverse::lemma_reverse_involution;
pub use reverse::rev1;
pub use reverse::rev_copy;
pub use setops::contains_eq;
pub use setops::count_eq;
pub use setops::count_occurrences;
pub use setops::count_up_to;
pub use setops::dedup_first;
pub use setops::disjoint_eq;
pub use setops::deref_vals;
pub use setops::inter_spec;
pub use setops::intersection;
pub use setops::lemma_count_eq_contains;
pub use setops::lemma_disjoint_inter_union;
pub use setops::union;
pub use setops::union_rest;
pub use setops::union_spec;
pub use views::flap;
pub use views::flap_src;
pub use views::flip;
pub use views::is_reverse_view;
pub use views::mutflip;
pub use views::write_view;
