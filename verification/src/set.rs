use core::marker::PhantomData;
use vstd::prelude::*;
use vstd::string::StringExecFns;

use crate::clike::CLike;
use crate::iter::Iter;
use crate::mask::{
    lemma_mask_and, lemma_mask_bit, lemma_mask_diff, lemma_mask_empty, lemma_mask_injective,
    lemma_mask_or, lemma_mask_set_is_below_32, lemma_mask_superset, lemma_mask_xor, mask_set,
    popcount,
};

verus! {

broadcast use vstd::set::group_set_axioms;

/// A set of values of a C-like enum type `E`, stored as a 32-bit mask:
/// bit `i` of the mask is set exactly when the value with ordinal `i`
/// is a member.
#[derive(Copy, Hash)]
pub struct EnumSet<E> {
    bits: u32,
    phantom: PhantomData<E>,
}

impl<E> Clone for EnumSet<E> {
    /// A clone is the very same set.
    fn clone(&self) -> (r: Self)
        ensures
            r == *self,
    {
        EnumSet { bits: self.bits, phantom: PhantomData }
    }
}

impl<E> View for EnumSet<E> {
    type V = Set<u32>;

    closed spec fn view(&self) -> Set<u32> {
        mask_set(self.bits)
    }
}

/// The ordinals taken by the elements of a sequence.
pub open spec fn ordinals_of<E: CLike>(s: Seq<E>) -> Set<u32> {
    Set::new(|o: u32| exists|k: int| 0 <= k < s.len() && s[k].ordinal() == o)
}

/// The single-bit mask for a value, `1 << ordinal`. An ordinal of 32 or
/// more can never reach this computation — the trait obligation
/// `ordinal_in_range` bounds every ordinal below 32 — so no bit is ever
/// silently masked off, and the shift cannot overflow.
fn bit<E: CLike>(e: &E) -> (r: u32)
    ensures
        r == 1u32 << e.ordinal(),
        e.ordinal() < 32,
{
    proof {
        e.ordinal_in_range();
    }
    let value = e.to_u32();
    1u32 << value
}

impl<E: CLike> EnumSet<E> {
    /// The representation invariant: every member ordinal is actually
    /// taken by some value of `E`, so no junk bit is ever set.
    pub open spec fn wf(self) -> bool {
        forall|o: u32| #[trigger] self@.contains(o) ==> exists|e: E| e.ordinal() == o
    }

    /// The set with the given membership, as a mathematical value.
    closed spec fn with_bits(bits: u32) -> Self {
        EnumSet { bits, phantom: PhantomData }
    }

    /// The union of the two sets, as a mathematical value.
    pub closed spec fn spec_union(self, other: Self) -> Self {
        Self::with_bits(self.bits | other.bits)
    }

    /// The intersection of the two sets, as a mathematical value.
    pub closed spec fn spec_intersection(self, other: Self) -> Self {
        Self::with_bits(self.bits & other.bits)
    }

    /// The difference of the two sets, as a mathematical value.
    pub closed spec fn spec_difference(self, other: Self) -> Self {
        Self::with_bits(self.bits & !other.bits)
    }

    /// The symmetric difference of the two sets, as a mathematical value.
    pub closed spec fn spec_symmetric_difference(self, other: Self) -> Self {
        Self::with_bits(self.bits ^ other.bits)
    }

    /// Membership of `self` within `other`.
    pub open spec fn spec_is_subset(self, other: Self) -> bool {
        self@.subset_of(other@)
    }

    /// Membership of `other` within `self`.
    pub open spec fn spec_is_superset(self, other: Self) -> bool {
        other@.subset_of(self@)
    }

    /// Returns an empty `EnumSet`.
    pub fn new() -> (r: Self)
        ensures
            r@ == Set::<u32>::empty(),
            r.wf(),
    {
        proof {
            lemma_mask_empty(0);
        }
        Self::new_with_bits(0)
    }

    fn new_with_bits(bits: u32) -> (r: Self)
        ensures
            r == Self::with_bits(bits),
            r@ == mask_set(bits),
    {
        EnumSet { bits, phantom: PhantomData }
    }

    /// Returns the number of elements in the set.
    pub fn len(&self) -> (r: usize)
        ensures
            r == self@.len(),
    {
        proof {
            lemma_mask_set_is_below_32(self.bits);
        }
        popcount(self.bits) as usize
    }

    /// Checks if the set is empty.
    pub fn is_empty(&self) -> (r: bool)
        ensures
            r == self@.is_empty(),
    {
        proof {
            lemma_mask_empty(self.bits);
        }
        self.bits == 0
    }

    /// Removes all elements from the set.
    pub fn clear(&mut self)
        ensures
            final(self)@ == Set::<u32>::empty(),
            final(self).wf(),
    {
        proof {
            lemma_mask_empty(0);
        }
        self.bits = 0;
    }

    /// Returns `true` if the set has no elements in common with `other`.
    pub fn is_disjoint(&self, other: &Self) -> (r: bool)
        ensures
            r == self@.disjoint(other@),
    {
        proof {
            lemma_mask_and(self.bits, other.bits);
            lemma_mask_empty(self.bits & other.bits);
            if self@.disjoint(other@) {
                assert(self@.intersect(other@) =~= Set::empty());
            } else {
                let a = choose|a: u32| self@.contains(a) && other@.contains(a);
                assert(self@.intersect(other@).contains(a));
            }
        }
        (self.bits & other.bits) == 0
    }

    /// Returns `true` if the set is a superset of `other`.
    pub fn is_superset(&self, other: &Self) -> (r: bool)
        ensures
            r == self.spec_is_superset(*other),
    {
        proof {
            lemma_mask_superset(self.bits, other.bits);
        }
        (self.bits & other.bits) == other.bits
    }

    /// Returns `true` if the set is a subset of `other`.
    pub fn is_subset(&self, other: &Self) -> (r: bool)
        ensures
            r == self.spec_is_subset(*other),
    {
        other.is_superset(self)
    }

    /// Returns the union of the set and `other`.
    pub fn union(&self, other: Self) -> (r: Self)
        ensures
            r == self.spec_union(other),
            r@ == self@.union(other@),
            self.wf() && other.wf() ==> r.wf(),
    {
        proof {
            lemma_mask_or(self.bits, other.bits);
        }
        Self::new_with_bits(self.bits | other.bits)
    }

    /// Returns the intersection of the set and `other`.
    pub fn intersection(&self, other: Self) -> (r: Self)
        ensures
            r == self.spec_intersection(other),
            r@ == self@.intersect(other@),
            self.wf() ==> r.wf(),
    {
        proof {
            lemma_mask_and(self.bits, other.bits);
        }
        Self::new_with_bits(self.bits & other.bits)
    }

    /// Returns the difference between the set and `other`.
    pub fn difference(&self, other: Self) -> (r: Self)
        ensures
            r == self.spec_difference(other),
            r@ == self@.difference(other@),
            self.wf() ==> r.wf(),
    {
        proof {
            lemma_mask_diff(self.bits, other.bits);
        }
        Self::new_with_bits(self.bits & !other.bits)
    }

    /// Returns the symmetric difference between the set and `other`.
    pub fn symmetric_difference(&self, other: Self) -> (r: Self)
        ensures
            r == self.spec_symmetric_difference(other),
            r@ == self@.difference(other@).union(other@.difference(self@)),
            self.wf() && other.wf() ==> r.wf(),
    {
        proof {
            lemma_mask_xor(self.bits, other.bits);
        }
        Self::new_with_bits(self.bits ^ other.bits)
    }

    /// Adds the given value to the set.
    ///
    /// Returns `true` if the value was not already present in the set.
    pub fn insert(&mut self, value: E) -> (r: bool)
        ensures
            final(self)@ == old(self)@.insert(value.ordinal()),
            r == !old(self)@.contains(value.ordinal()),
            old(self).wf() ==> final(self).wf(),
    {
        let result = !self.contains(&value);
        let b = bit(&value);
        proof {
            lemma_mask_bit(self.bits, value.ordinal());
        }
        self.bits = self.bits | b;
        proof {
            if old(self).wf() {
                assert(exists|e: E| e.ordinal() == value.ordinal()) by {
                    assert(value.ordinal() == value.ordinal());
                }
            }
        }
        result
    }

    /// Removes a value from the set.
    ///
    /// Returns `true` if the value was present in the set.
    pub fn remove(&mut self, value: &E) -> (r: bool)
        ensures
            final(self)@ == old(self)@.remove(value.ordinal()),
            r == old(self)@.contains(value.ordinal()),
            old(self).wf() ==> final(self).wf(),
    {
        let result = self.contains(value);
        let b = bit(value);
        proof {
            lemma_mask_bit(self.bits, value.ordinal());
        }
        self.bits = self.bits & !b;
        result
    }

    /// Returns `true` if the set contains the given value.
    pub fn contains(&self, value: &E) -> (r: bool)
        ensures
            r == self@.contains(value.ordinal()),
    {
        let b = bit(value);
        proof {
            lemma_mask_bit(self.bits, value.ordinal());
        }
        (self.bits & b) != 0
    }

    /// Returns an iterator over the set's elements, in ascending ordinal
    /// order, working on a snapshot of the current membership.
    pub fn iter(&self) -> (r: Iter<E>)
        ensures
            r.remaining() == self@,
            self.wf() ==> r.wf(),
    {
        let r = Iter::from_mask(self.bits);
        proof {
            if self.wf() {
                assert forall|o: u32| mask_set(self.bits).contains(o) implies exists|e: E|
                    e.ordinal() == o by {
                    assert(self@.contains(o));
                }
            }
        }
        r
    }

    /// Builds a set holding every element of the given sequence; duplicates
    /// collapse and order is irrelevant, since membership is the whole state.
    pub fn from_iter(elements: Vec<E>) -> (r: Self)
        ensures
            r@ == ordinals_of(elements@),
            r.wf(),
    {
        let mut ret = Self::new();
        ret.extend(elements);
        proof {
            assert(ret@ =~= ordinals_of(elements@));
        }
        ret
    }

    /// Inserts every element of the given sequence into the set.
    pub fn extend(&mut self, elements: Vec<E>)
        ensures
            final(self)@ == old(self)@.union(ordinals_of(elements@)),
            old(self).wf() ==> final(self).wf(),
    {
        let ghost all = elements@;
        let mut elems = elements;
        while elems.len() > 0
            invariant
                self@.union(ordinals_of(elems@)) == old(self)@.union(ordinals_of(all)),
                old(self).wf() ==> self.wf(),
            decreases elems@.len(),
        {
            let ghost prev = elems@;
            let e = elems.pop().unwrap();
            self.insert(e);
            proof {
                assert(prev.drop_last() =~= elems@);
                lemma_ordinals_of_drop_last(prev);
                assert(self@.union(ordinals_of(elems@)) =~= old(self)@.union(ordinals_of(all)));
            }
        }
        proof {
            assert(ordinals_of(elems@) =~= Set::<u32>::empty());
            assert(self@ =~= old(self)@.union(ordinals_of(all)));
        }
    }
}

/// The element labels between the braces: the label of each member, in
/// ascending ordinal order, separated by a comma and a space.
pub open spec fn labels_text(s: Set<u32>, labels: Seq<String>, i: int, first: bool) -> Seq<char>
    decreases 32 - i,
{
    if i < 0 || i >= 32 {
        Seq::empty()
    } else if s.contains(i as u32) {
        (if first {
            Seq::empty()
        } else {
            ", "@
        }) + labels[i]@ + labels_text(s, labels, i + 1, false)
    } else {
        labels_text(s, labels, i + 1, first)
    }
}

/// The rendering of a whole set: its members' labels between braces.
pub open spec fn render_text(s: Set<u32>, labels: Seq<String>) -> Seq<char> {
    "{"@ + labels_text(s, labels, 0, true) + "}"@
}

impl<E: CLike> EnumSet<E> {
    /// Renders the set as `{label, label, ...}` in ascending ordinal order,
    /// taking the label of each ordinal from the given table.
    pub fn render(&self, labels: &Vec<String>) -> (r: String)
        requires
            forall|o: u32| #[trigger] self@.contains(o) ==> o < labels@.len(),
        ensures
            r@ == render_text(self@, labels@),
    {
        let mut out = String::new();
        out.append("{");
        let mut first: bool = true;
        let mut i: u32 = 0;
        while i < 32
            invariant
                i <= 32,
                forall|o: u32| #[trigger] self@.contains(o) ==> o < labels@.len(),
                "{"@ + labels_text(self@, labels@, 0, true) == out@ + labels_text(
                    self@,
                    labels@,
                    i as int,
                    first,
                ),
            decreases 32 - i,
        {
            let ghost before = out@;
            let ghost was_first = first;
            if (self.bits >> i) & 1 == 1 {
                proof {
                    assert(self@.contains(i));
                }
                if !first {
                    out.append(", ");
                }
                out.append(labels[i as usize].as_str());
                first = false;
                proof {
                    assert(out@ =~= before + ((if was_first {
                        Seq::<char>::empty()
                    } else {
                        ", "@
                    }) + labels@[i as int]@));
                }
            }
            proof {
                assert("{"@ + labels_text(self@, labels@, 0, true) =~= out@ + labels_text(
                    self@,
                    labels@,
                    i + 1,
                    first,
                ));
            }
            i = i + 1;
        }
        out.append("}");
        proof {
            assert(labels_text(self@, labels@, 32, first) == Seq::<char>::empty());
            assert(out@ =~= render_text(self@, labels@));
        }
        out
    }
}

/// A set is nothing but its membership: two sets with the same members are
/// the same value.
pub proof fn lemma_sets_equal_iff_views_equal<E: CLike>(a: EnumSet<E>, b: EnumSet<E>)
    ensures
        (a == b) == (a@ == b@),
{
    lemma_mask_injective(a.bits, b.bits);
}

/// The membership of a set is always finite.
pub proof fn lemma_view_finite<E: CLike>(a: EnumSet<E>)
    ensures
        a@.finite(),
{
    lemma_mask_set_is_below_32(a.bits);
}

/// The mathematical set operations act on membership as the corresponding
/// operations on `Set`.
pub proof fn lemma_spec_ops_views<E: CLike>(a: EnumSet<E>, b: EnumSet<E>)
    ensures
        a.spec_union(b)@ == a@.union(b@),
        a.spec_intersection(b)@ == a@.intersect(b@),
        a.spec_difference(b)@ == a@.difference(b@),
        a.spec_symmetric_difference(b)@ == a@.difference(b@).union(b@.difference(a@)),
{
    lemma_mask_or(a.bits, b.bits);
    lemma_mask_and(a.bits, b.bits);
    lemma_mask_diff(a.bits, b.bits);
    lemma_mask_xor(a.bits, b.bits);
}

/// Splitting off the last element splits off its ordinal.
proof fn lemma_ordinals_of_drop_last<E: CLike>(s: Seq<E>)
    requires
        s.len() > 0,
    ensures
        ordinals_of(s) == ordinals_of(s.drop_last()).insert(s.last().ordinal()),
{
    let short = s.drop_last();
    assert forall|o: u32| #[trigger] ordinals_of(s).contains(o) implies ordinals_of(short).insert(
        s.last().ordinal(),
    ).contains(o) by {
        let k = choose|k: int| 0 <= k < s.len() && s[k].ordinal() == o;
        if k < s.len() - 1 {
            assert(short[k] == s[k]);
            assert(ordinals_of(short).contains(o));
        } else {
            assert(o == s.last().ordinal());
        }
    }
    assert forall|o: u32|
        #[trigger] ordinals_of(short).insert(s.last().ordinal()).contains(o) implies ordinals_of(
        s,
    ).contains(o) by {
        if ordinals_of(short).contains(o) {
            let k = choose|k: int| 0 <= k < short.len() && short[k].ordinal() == o;
            assert(s[k] == short[k]);
            assert(ordinals_of(s).contains(o));
        } else {
            assert(s[s.len() - 1] == s.last());
            assert(ordinals_of(s).contains(o));
        }
    }
    assert(ordinals_of(s) =~= ordinals_of(short).insert(s.last().ordinal()));
}

impl<E: CLike> vstd::std_specs::ops::BitOrSpecImpl for EnumSet<E> {
    open spec fn obeys_bitor_spec() -> bool {
        true
    }

    open spec fn bitor_req(self, other: Self) -> bool {
        true
    }

    open spec fn bitor_spec(self, other: Self) -> Self {
        self.spec_union(other)
    }
}

impl<E: CLike> core::ops::BitOr for EnumSet<E> {
    type Output = Self;

    /// `a | b` is the union of the two sets.
    fn bitor(self, other: Self) -> Self {
        self.union(other)
    }
}

impl<E: CLike> vstd::std_specs::ops::BitAndSpecImpl for EnumSet<E> {
    open spec fn obeys_bitand_spec() -> bool {
        true
    }

    open spec fn bitand_req(self, other: Self) -> bool {
        true
    }

    open spec fn bitand_spec(self, other: Self) -> Self {
        self.spec_intersection(other)
    }
}

impl<E: CLike> core::ops::BitAnd for EnumSet<E> {
    type Output = Self;

    /// `a & b` is the intersection of the two sets.
    fn bitand(self, other: Self) -> Self {
        self.intersection(other)
    }
}

impl<E: CLike> vstd::std_specs::ops::SubSpecImpl for EnumSet<E> {
    open spec fn obeys_sub_spec() -> bool {
        true
    }

    open spec fn sub_req(self, other: Self) -> bool {
        true
    }

    open spec fn sub_spec(self, other: Self) -> Self {
        self.spec_difference(other)
    }
}

impl<E: CLike> core::ops::Sub for EnumSet<E> {
    type Output = Self;

    /// `a - b` is the difference of the two sets.
    fn sub(self, other: Self) -> Self {
        self.difference(other)
    }
}

impl<E: CLike> vstd::std_specs::ops::BitXorSpecImpl for EnumSet<E> {
    open spec fn obeys_bitxor_spec() -> bool {
        true
    }

    open spec fn bitxor_req(self, other: Self) -> bool {
        true
    }

    open spec fn bitxor_spec(self, other: Self) -> Self {
        self.spec_symmetric_difference(other)
    }
}

impl<E: CLike> core::ops::BitXor for EnumSet<E> {
    type Output = Self;

    /// `a ^ b` is the symmetric difference of the two sets.
    fn bitxor(self, other: Self) -> Self {
        self.symmetric_difference(other)
    }
}

impl<E: CLike> PartialEq for EnumSet<E> {
    /// Two sets are equal exactly when they have the same members,
    /// that is, the same mask.
    fn eq(&self, other: &Self) -> (r: bool) {
        self.bits == other.bits
    }
}

impl<E: CLike> Eq for EnumSet<E> {

}

impl<E: CLike> vstd::std_specs::cmp::PartialOrdSpecImpl for EnumSet<E> {
    open spec fn obeys_partial_cmp_spec() -> bool {
        true
    }

    closed spec fn partial_cmp_spec(&self, other: &Self) -> Option<core::cmp::Ordering> {
        if self.bits < other.bits {
            Some(core::cmp::Ordering::Less)
        } else if self.bits == other.bits {
            Some(core::cmp::Ordering::Equal)
        } else {
            Some(core::cmp::Ordering::Greater)
        }
    }
}

impl<E: CLike> PartialOrd for EnumSet<E> {
    /// Sets are ordered by their masks, as plain integers.
    fn partial_cmp(&self, other: &Self) -> (r: Option<core::cmp::Ordering>) {
        if self.bits < other.bits {
            Some(core::cmp::Ordering::Less)
        } else if self.bits == other.bits {
            Some(core::cmp::Ordering::Equal)
        } else {
            Some(core::cmp::Ordering::Greater)
        }
    }
}

impl<E: CLike> vstd::std_specs::cmp::PartialEqSpecImpl for EnumSet<E> {
    open spec fn obeys_eq_spec() -> bool {
        true
    }

    closed spec fn eq_spec(&self, other: &Self) -> bool {
        self.bits == other.bits
    }
}

impl<E: CLike> Default for EnumSet<E> {
    /// The default set is the empty set.
    fn default() -> (r: Self)
        ensures
            r@ == Set::<u32>::empty(),
            r.wf(),
    {
        Self::new()
    }
}

} // verus!
