//! A set container for C-like enums, stored as a 32-bit mask.
//!
//! The container holds values of any type implementing [`CLike`], the
//! ordinal-mapping contract: each value corresponds to a small integer
//! ordinal below 32, and membership is one bit of a `u32` mask.

mod algebra;
mod clike;
mod codegen;
mod iter;
mod mask;
mod set;

pub use algebra::{
    lemma_difference_via_intersection, lemma_insert_idempotent, lemma_intersection_commutative,
    lemma_is_empty_iff_len_zero, lemma_ordinal_roundtrip, lemma_subset_superset_duality,
    lemma_symmetric_difference_forms, lemma_union_commutative,
};
pub use clike::CLike;
pub use codegen::{
    arms_text, check_members, clean_prefix, dec_seq, digit_char, eligible, generate,
    lemma_boundary_32_members, mapping_text, EligibilityError, Member,
};
pub use iter::{lemma_remaining_finite, Iter};
pub use set::{
    labels_text, lemma_sets_equal_iff_views_equal, lemma_spec_ops_views, lemma_view_finite,
    ordinals_of, render_text, EnumSet,
};
