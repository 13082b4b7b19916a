use core::marker::PhantomData;
use vstd::prelude::*;

use crate::clike::CLike;
use crate::mask::{
    find_set_bit, lemma_popcount_shr1, lemma_popcount_zero, lemma_shr1, mask_set, popcount,
    popcount_below,
};

verus! {

broadcast use vstd::set::group_set_axioms;

/// An iterator over an `EnumSet`: a snapshot of the set's mask, taken when
/// the iterator was created, together with the index of the next candidate
/// ordinal. Later changes to the set do not affect it, and a copy resumes
/// from the same position.
#[derive(Copy)]
pub struct Iter<E> {
    index: u32,
    bits: u32,
    phantom: PhantomData<E>,
}

impl<E> Clone for Iter<E> {
    /// A clone resumes from the same position over the same snapshot.
    fn clone(&self) -> (r: Self)
        ensures
            r == *self,
    {
        Iter { index: self.index, bits: self.bits, phantom: PhantomData }
    }
}

impl<E: CLike> Iter<E> {
    /// The ordinals not yet yielded, in terms of the snapshot and cursor.
    pub closed spec fn remaining(self) -> Set<u32> {
        Set::new(
            |o: u32|
                o >= self.index && o - self.index < 32 && ((self.bits >> ((o - self.index)
                    as u32)) & 1u32) == 1u32,
        )
    }

    /// Well-formedness: every marked snapshot bit stands for an ordinal
    /// below 32 that some value of `E` actually takes.
    pub closed spec fn wf(self) -> bool {
        forall|j: u32|
            j < 32 && (#[trigger] ((self.bits >> j) & 1u32)) == 1u32 ==> self.index + j < 32 && (
            exists|e: E| e.ordinal() == self.index + j)
    }

    /// Builds an iterator over the marked positions of a mask.
    pub(crate) fn from_mask(m: u32) -> (r: Self)
        ensures
            r.remaining() == mask_set(m),
            (forall|o: u32| mask_set(m).contains(o) ==> exists|e: E| e.ordinal() == o) ==> r.wf(),
    {
        let r = Iter { index: 0, bits: m, phantom: PhantomData };
        proof {
            assert(r.remaining() =~= mask_set(m));
            if forall|o: u32| mask_set(m).contains(o) ==> exists|e: E| e.ordinal() == o {
                assert forall|j: u32|
                    j < 32 && (#[trigger] ((m >> j) & 1u32)) == 1u32 implies 0 + j < 32 && (
                exists|e: E| e.ordinal() == 0 + j) by {
                    assert(mask_set(m).contains(j));
                }
            }
        }
        r
    }

    /// Yields the member with the least remaining ordinal, or nothing once
    /// the snapshot is exhausted.
    pub fn next(&mut self) -> (r: Option<E>)
        requires
            old(self).wf(),
        ensures
            final(self).wf(),
            (r is None) == old(self).remaining().is_empty(),
            r is None ==> final(self).remaining() == old(self).remaining(),
            r matches Some(e) ==> {
                &&& old(self).remaining().contains(e.ordinal())
                &&& forall|o: u32| old(self).remaining().contains(o) ==> e.ordinal() <= o
                &&& final(self).remaining() == old(self).remaining().remove(e.ordinal())
            },
    {
        if self.bits == 0 {
            proof {
                assert(forall|o: u32| (0u32 >> o) & 1u32 != 1u32) by (bit_vector);
                assert(old(self).remaining() =~= Set::<u32>::empty());
            }
            return None;
        }
        proof {
            lemma_nonempty_bounds(*self);
        }
        while (self.bits & 1) == 0
            invariant
                self.wf(),
                self.bits != 0,
                self.index < 32,
                self.remaining() == old(self).remaining(),
            decreases 32 - self.index,
        {
            let ghost pre = *self;
            self.index = self.index + 1;
            self.bits = self.bits >> 1;
            proof {
                let pb = pre.bits;
                let nb = self.bits;
                assert(nb != 0) by (bit_vector)
                    requires
                        pb != 0,
                        pb & 1u32 == 0,
                        nb == pb >> 1u32,
                ;
                lemma_advance(pre, *self);
                lemma_nonempty_bounds(*self);
            }
        }
        let ghost pre = *self;
        proof {
            let pb = pre.bits;
            assert((pb >> 0u32) & 1u32 == 1u32) by (bit_vector)
                requires
                    pb & 1u32 != 0,
            ;
            assert(pre.remaining().contains(pre.index));
            assert(exists|e: E| e.ordinal() == pre.index);
        }
        let elem = E::from_u32(self.index);
        self.index = self.index + 1;
        self.bits = self.bits >> 1;
        proof {
            lemma_advance(pre, *self);
            assert(forall|o: u32| pre.remaining().contains(o) ==> pre.index <= o);
            assert(!old(self).remaining().is_empty());
        }
        Some(elem)
    }

    /// An exact count of the elements still to come.
    pub fn size_hint(&self) -> (r: (usize, Option<usize>))
        requires
            self.wf(),
        ensures
            r.0 == self.remaining().len(),
            r.1 == Some(r.0),
    {
        proof {
            lemma_remaining_card(*self);
        }
        let exact = popcount(self.bits) as usize;
        (exact, Some(exact))
    }
}

/// The remainder of a well-formed iterator is finite, so each yield brings
/// its cardinality down by exactly one.
pub proof fn lemma_remaining_finite<E: CLike>(it: Iter<E>)
    requires
        it.wf(),
    ensures
        it.remaining().finite(),
{
    lemma_remaining_card(it);
}

/// A well-formed iterator with marked bits left has its cursor below 32 and
/// a nonempty remainder.
proof fn lemma_nonempty_bounds<E: CLike>(it: Iter<E>)
    requires
        it.wf(),
        it.bits != 0,
    ensures
        it.index < 32,
        !it.remaining().is_empty(),
{
    let b = it.bits;
    assert((b >> 0u32) == b) by (bit_vector);
    let j = find_set_bit(b, 0);
    assert(it.index + j < 32);
    let o = (it.index + j) as u32;
    assert(it.remaining().contains(o));
}

/// Stepping the cursor: the shifted snapshot covers the same ordinals,
/// less the one at the old cursor if it was marked.
proof fn lemma_advance<E: CLike>(pre: Iter<E>, post: Iter<E>)
    requires
        pre.wf(),
        pre.index < 32,
        post.index == pre.index + 1,
        post.bits == (pre.bits >> 1u32),
    ensures
        post.wf(),
        (pre.bits & 1u32) == 1u32 ==> post.remaining() == pre.remaining().remove(pre.index),
        (pre.bits & 1u32) != 1u32 ==> post.remaining() == pre.remaining(),
{
    let b = pre.bits;
    lemma_shr1(b);
    assert((b >> 0u32) & 1u32 == (b & 1u32)) by (bit_vector);
    assert forall|j: u32|
        j < 32 && (#[trigger] ((post.bits >> j) & 1u32)) == 1u32 implies post.index + j < 32 && (
    exists|e: E| e.ordinal() == post.index + j) by {
        assert(j < 31) by {
            if j == 31 {
                assert((((b >> 1u32) >> 31u32) & 1u32) == 0);
            }
        }
        assert(((b >> ((j + 1) as u32)) & 1u32) == 1u32);
        assert(pre.index + ((j + 1) as u32) < 32);
    }
    assert forall|o: u32| #[trigger]
        post.remaining().contains(o) implies pre.remaining().contains(o) && o != pre.index by {
        let d = (o - post.index) as u32;
        assert(((post.bits >> d) & 1u32) == 1u32);
        if d < 31 {
            assert((((b >> 1u32) >> d) & 1u32) == ((b >> ((d + 1) as u32)) & 1u32));
            assert(o - pre.index == d + 1);
        } else {
            assert((((b >> 1u32) >> 31u32) & 1u32) == 0);
        }
    }
    assert forall|o: u32|
        pre.remaining().contains(o) && o != pre.index implies #[trigger] post.remaining().contains(
        o,
    ) by {
        let d = (o - pre.index) as u32;
        assert(((b >> d) & 1u32) == 1u32);
        assert(1 <= d < 32);
        let j = (d - 1) as u32;
        assert(j < 31);
        assert((((b >> 1u32) >> j) & 1u32) == ((b >> ((j + 1) as u32)) & 1u32));
        assert(((j + 1) as u32) == d);
        assert(o - post.index == j);
    }
    if (b & 1u32) == 1u32 {
        assert(pre.remaining().contains(pre.index));
        assert(post.remaining() =~= pre.remaining().remove(pre.index));
    } else {
        assert(!pre.remaining().contains(pre.index));
        assert(post.remaining() =~= pre.remaining());
    }
}

/// The remainder is finite and counted by the popcount of the snapshot.
proof fn lemma_remaining_card<E: CLike>(it: Iter<E>)
    requires
        it.wf(),
    ensures
        it.remaining().finite(),
        it.remaining().len() == popcount_below(it.bits, 32),
    decreases 32 - it.index,
{
    if it.bits == 0 {
        assert(forall|o: u32| (0u32 >> o) & 1u32 != 1u32) by (bit_vector);
        assert(it.remaining() =~= Set::<u32>::empty());
        lemma_popcount_zero(32);
    } else {
        lemma_nonempty_bounds(it);
        let post = Iter::<E> {
            index: (it.index + 1) as u32,
            bits: it.bits >> 1u32,
            phantom: it.phantom,
        };
        lemma_advance(it, post);
        lemma_remaining_card(post);
        lemma_popcount_shr1(it.bits);
        let b = it.bits;
        assert((b >> 0u32) & 1u32 == (b & 1u32)) by (bit_vector);
        if (it.bits & 1u32) == 1u32 {
            assert(it.remaining().contains(it.index));
            assert(it.remaining() =~= post.remaining().insert(it.index));
        }
    }
}

} // verus!
