use vstd::prelude::*;

use crate::clike::CLike;
use crate::set::{lemma_sets_equal_iff_views_equal, lemma_spec_ops_views, lemma_view_finite, EnumSet};

verus! {

broadcast use vstd::set::group_set_axioms;

/// The bijection invariant of the ordinal mapping: whatever value comes
/// back for an ordinal — as `from_u32` does for `to_u32`'s result — is the
/// value that ordinal belongs to.
pub proof fn lemma_ordinal_roundtrip<E: CLike>(e: E, back: E)
    requires
        back.ordinal() == e.ordinal(),
    ensures
        back == e,
{
    back.ordinal_injective(&e);
}

/// Union is commutative: `a.union(b)` is the very set `b.union(a)`.
pub proof fn lemma_union_commutative<E: CLike>(a: EnumSet<E>, b: EnumSet<E>)
    ensures
        a.spec_union(b) == b.spec_union(a),
{
    lemma_spec_ops_views(a, b);
    lemma_spec_ops_views(b, a);
    assert(a@.union(b@) =~= b@.union(a@));
    lemma_sets_equal_iff_views_equal(a.spec_union(b), b.spec_union(a));
}

/// Intersection is commutative: `a.intersection(b)` is `b.intersection(a)`.
pub proof fn lemma_intersection_commutative<E: CLike>(a: EnumSet<E>, b: EnumSet<E>)
    ensures
        a.spec_intersection(b) == b.spec_intersection(a),
{
    lemma_spec_ops_views(a, b);
    lemma_spec_ops_views(b, a);
    assert(a@.intersect(b@) =~= b@.intersect(a@));
    lemma_sets_equal_iff_views_equal(a.spec_intersection(b), b.spec_intersection(a));
}

/// Difference can be phrased through intersection:
/// `a.difference(b)` is `a.difference(a.intersection(b))`.
pub proof fn lemma_difference_via_intersection<E: CLike>(a: EnumSet<E>, b: EnumSet<E>)
    ensures
        a.spec_difference(b) == a.spec_difference(a.spec_intersection(b)),
{
    lemma_spec_ops_views(a, b);
    lemma_spec_ops_views(a, a.spec_intersection(b));
    assert(a@.difference(b@) =~= a@.difference(a@.intersect(b@)));
    lemma_sets_equal_iff_views_equal(a.spec_difference(b), a.spec_difference(a.spec_intersection(b)));
}

/// The two classical renderings of the symmetric difference:
/// `(a - b) | (b - a)` and `(a | b) - (a & b)` both give `a ^ b`.
pub proof fn lemma_symmetric_difference_forms<E: CLike>(a: EnumSet<E>, b: EnumSet<E>)
    ensures
        a.spec_symmetric_difference(b) == a.spec_difference(b).spec_union(b.spec_difference(a)),
        a.spec_symmetric_difference(b) == a.spec_union(b).spec_difference(a.spec_intersection(b)),
{
    lemma_spec_ops_views(a, b);
    lemma_spec_ops_views(b, a);
    lemma_spec_ops_views(a.spec_difference(b), b.spec_difference(a));
    lemma_spec_ops_views(a.spec_union(b), a.spec_intersection(b));
    assert(a@.difference(b@).union(b@.difference(a@)) =~= a@.union(b@).difference(
        a@.intersect(b@),
    ));
    lemma_sets_equal_iff_views_equal(
        a.spec_symmetric_difference(b),
        a.spec_difference(b).spec_union(b.spec_difference(a)),
    );
    lemma_sets_equal_iff_views_equal(
        a.spec_symmetric_difference(b),
        a.spec_union(b).spec_difference(a.spec_intersection(b)),
    );
}

/// Subset and superset are each other's mirror: `a.is_subset(b)` holds
/// exactly when `b.is_superset(a)` does.
pub proof fn lemma_subset_superset_duality<E: CLike>(a: EnumSet<E>, b: EnumSet<E>)
    ensures
        a.spec_is_subset(b) == b.spec_is_superset(a),
{
}

/// A set is empty exactly when it has no elements to count.
pub proof fn lemma_is_empty_iff_len_zero<E: CLike>(a: EnumSet<E>)
    ensures
        a@.is_empty() == (a@.len() == 0),
{
    lemma_view_finite(a);
    if a@.len() == 0 {
        a@.lemma_len0_is_empty();
    }
}

/// Inserting a value makes it a member; inserting it again changes nothing,
/// and the count grows by one exactly when the value was new. Together with
/// `insert`'s contract this says a second `insert` of the same value returns
/// `false` and leaves the count alone.
pub proof fn lemma_insert_idempotent<E: CLike>(a: EnumSet<E>, value: E)
    ensures
        a@.insert(value.ordinal()).contains(value.ordinal()),
        a@.insert(value.ordinal()).insert(value.ordinal()) == a@.insert(value.ordinal()),
        !a@.contains(value.ordinal()) ==> a@.insert(value.ordinal()).len() == a@.len() + 1,
        a@.contains(value.ordinal()) ==> a@.insert(value.ordinal()).len() == a@.len(),
{
    lemma_view_finite(a);
    assert(a@.insert(value.ordinal()).insert(value.ordinal()) =~= a@.insert(value.ordinal()));
    if a@.contains(value.ordinal()) {
        assert(a@.insert(value.ordinal()) =~= a@);
    }
}

} // verus!
