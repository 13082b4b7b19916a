use vstd::prelude::*;

verus! {

broadcast use vstd::set::group_set_axioms;

/// The set of bit positions (ordinals) marked in a 32-bit mask.
pub open spec fn mask_set(m: u32) -> Set<u32> {
    Set::new(|o: u32| o < 32 && (m >> o) & 1u32 == 1u32)
}

/// The bit positions below `n` marked in `m`.
pub open spec fn mask_set_below(m: u32, n: int) -> Set<u32> {
    Set::new(|o: u32| o < n && (m >> o) & 1u32 == 1u32)
}

/// The number of bits below `n` marked in `m`.
pub open spec fn popcount_below(m: u32, n: int) -> nat
    decreases n,
{
    if n <= 0 {
        0
    } else {
        popcount_below(m, n - 1) + (if (m >> ((n - 1) as u32)) & 1u32 == 1u32 {
            1nat
        } else {
            0nat
        })
    }
}

/// The marked positions below `n` form a finite set counted by `popcount_below`.
pub proof fn lemma_popcount_card(m: u32, n: int)
    requires
        0 <= n <= 32,
    ensures
        mask_set_below(m, n).finite(),
        mask_set_below(m, n).len() == popcount_below(m, n),
    decreases n,
{
    if n == 0 {
        assert(mask_set_below(m, 0) =~= Set::empty());
    } else {
        lemma_popcount_card(m, n - 1);
        let prev = mask_set_below(m, n - 1);
        if (m >> ((n - 1) as u32)) & 1u32 == 1u32 {
            assert(mask_set_below(m, n) =~= prev.insert((n - 1) as u32));
        } else {
            assert(mask_set_below(m, n) =~= prev);
        }
    }
}

pub proof fn lemma_mask_set_is_below_32(m: u32)
    ensures
        mask_set(m) == mask_set_below(m, 32),
        mask_set(m).finite(),
        mask_set(m).len() == popcount_below(m, 32),
{
    assert(mask_set(m) =~= mask_set_below(m, 32));
    lemma_popcount_card(m, 32);
}

/// A marked position of a nonzero mask, found by scanning up from bit `i`.
pub proof fn find_set_bit(m: u32, i: u32) -> (o: u32)
    requires
        i < 32,
        (m >> i) != 0,
    ensures
        o < 32 && (m >> o) & 1u32 == 1u32,
    decreases 32 - i,
{
    if (m >> i) & 1u32 == 1u32 {
        i
    } else {
        assert(i < 31) by (bit_vector)
            requires
                i < 32 && (m >> i) != 0 && (m >> i) & 1u32 != 1u32,
        ;
        let j = (i + 1) as u32;
        assert((m >> j) != 0) by (bit_vector)
            requires
                i < 31 && j == (i + 1) as u32 && (m >> i) != 0 && (m >> i) & 1u32 != 1u32,
        ;
        find_set_bit(m, j)
    }
}

/// Counts the marked positions of a mask.
pub(crate) fn popcount(m: u32) -> (r: u32)
    ensures
        r == popcount_below(m, 32),
        r <= 32,
{
    let mut count: u32 = 0;
    let mut i: u32 = 0;
    while i < 32
        invariant
            i <= 32,
            count == popcount_below(m, i as int),
            count <= i,
        decreases 32 - i,
    {
        if (m >> i) & 1 == 1 {
            count = count + 1;
        }
        i = i + 1;
    }
    count
}

/// Shifting right by one moves every higher position down by one.
pub proof fn lemma_shr1(b: u32)
    by (bit_vector)
    ensures
        forall|j: u32|
            j < 31 ==> (((b >> 1u32) >> j) & 1u32) == ((b >> ((j + 1) as u32)) & 1u32),
        (((b >> 1u32) >> 31u32) & 1u32) == 0,
        (b >> 0u32) == b,
{
}

/// The zero mask has no marked position, below any bound.
pub proof fn lemma_popcount_zero(n: int)
    requires
        0 <= n <= 32,
    ensures
        popcount_below(0u32, n) == 0,
    decreases n,
{
    assert(forall|o: u32| (0u32 >> o) & 1u32 != 1u32) by (bit_vector);
    if n > 0 {
        lemma_popcount_zero(n - 1);
    }
}

proof fn lemma_popcount_shr1_below(b: u32, m: int)
    requires
        0 <= m <= 31,
    ensures
        popcount_below(b >> 1u32, m) + (if b & 1u32 == 1u32 {
            1nat
        } else {
            0nat
        }) == popcount_below(b, m + 1),
    decreases m,
{
    lemma_shr1(b);
    if m == 0 {
        assert((b >> 0u32) & 1u32 == (b & 1u32)) by (bit_vector);
        assert(popcount_below(b >> 1u32, 0) == 0);
        assert(popcount_below(b, 1) == popcount_below(b, 0) + (if (b >> 0u32) & 1u32 == 1u32 {
            1nat
        } else {
            0nat
        }));
    } else {
        lemma_popcount_shr1_below(b, m - 1);
        assert((((b >> 1u32) >> ((m - 1) as u32)) & 1u32) == ((b >> (((m - 1) as u32 + 1)
            as u32)) & 1u32));
        assert((((m - 1) as u32 + 1) as u32) == m as u32);
        assert(popcount_below(b >> 1u32, m) == popcount_below(b >> 1u32, m - 1) + (if ((b >> 1u32)
            >> ((m - 1) as u32)) & 1u32 == 1u32 {
            1nat
        } else {
            0nat
        }));
        assert(popcount_below(b, m + 1) == popcount_below(b, m) + (if (b >> (((m + 1) - 1) as u32))
            & 1u32 == 1u32 {
            1nat
        } else {
            0nat
        }));
        assert((((m + 1) - 1) as u32) == m as u32);
    }
}

/// Shifting right by one drops exactly the lowest marked position.
pub proof fn lemma_popcount_shr1(b: u32)
    ensures
        popcount_below(b >> 1u32, 32) + (if b & 1u32 == 1u32 {
            1nat
        } else {
            0nat
        }) == popcount_below(b, 32),
{
    lemma_popcount_shr1_below(b, 31);
    lemma_shr1(b);
    assert(popcount_below(b >> 1u32, 32) == popcount_below(b >> 1u32, 31) + (if ((b >> 1u32)
        >> 31u32) & 1u32 == 1u32 {
        1nat
    } else {
        0nat
    }));
}

/// A mask is zero exactly when no position is marked.
pub proof fn lemma_mask_empty(m: u32)
    ensures
        (m == 0) == mask_set(m).is_empty(),
{
    if m == 0 {
        assert(forall|o: u32| (0u32 >> o) & 1u32 != 1u32) by (bit_vector);
        assert(mask_set(m) =~= Set::empty());
    } else {
        assert((m >> 0u32) == m) by (bit_vector);
        let o = find_set_bit(m, 0);
        assert(mask_set(m).contains(o));
        assert(!mask_set(m).is_empty());
    }
}

/// Equal mark sets come only from equal masks.
pub proof fn lemma_mask_injective(a: u32, b: u32)
    ensures
        (mask_set(a) == mask_set(b)) == (a == b),
{
    if a != b {
        assert((a ^ b) != 0 && ((a ^ b) >> 0u32) == (a ^ b)) by (bit_vector)
            requires
                a != b,
        ;
        let o = find_set_bit(a ^ b, 0);
        assert(((a >> o) & 1u32 == 1u32) != ((b >> o) & 1u32 == 1u32)) by (bit_vector)
            requires
                o < 32 && ((a ^ b) >> o) & 1u32 == 1u32,
        ;
        assert(mask_set(a).contains(o) != mask_set(b).contains(o));
        assert(mask_set(a) != mask_set(b));
    }
}

/// Bitwise or marks the union of the positions.
pub proof fn lemma_mask_or(a: u32, b: u32)
    ensures
        mask_set(a | b) == mask_set(a).union(mask_set(b)),
{
    assert(forall|o: u32| o < 32 ==> ((((a | b) >> o) & 1u32 == 1u32) == (((a >> o) & 1u32 == 1u32)
        || ((b >> o) & 1u32 == 1u32)))) by (bit_vector);
    assert(mask_set(a | b) =~= mask_set(a).union(mask_set(b)));
}

/// Bitwise and marks the intersection of the positions.
pub proof fn lemma_mask_and(a: u32, b: u32)
    ensures
        mask_set(a & b) == mask_set(a).intersect(mask_set(b)),
{
    assert(forall|o: u32| o < 32 ==> ((((a & b) >> o) & 1u32 == 1u32) == (((a >> o) & 1u32 == 1u32)
        && ((b >> o) & 1u32 == 1u32)))) by (bit_vector);
    assert(mask_set(a & b) =~= mask_set(a).intersect(mask_set(b)));
}

/// And-not marks the difference of the positions.
pub proof fn lemma_mask_diff(a: u32, b: u32)
    ensures
        mask_set(a & !b) == mask_set(a).difference(mask_set(b)),
{
    assert(forall|o: u32| o < 32 ==> ((((a & !b) >> o) & 1u32 == 1u32) == (((a >> o) & 1u32 == 1u32)
        && !((b >> o) & 1u32 == 1u32)))) by (bit_vector);
    assert(mask_set(a & !b) =~= mask_set(a).difference(mask_set(b)));
}

/// Xor marks the symmetric difference of the positions.
pub proof fn lemma_mask_xor(a: u32, b: u32)
    ensures
        mask_set(a ^ b) == mask_set(a).difference(mask_set(b)).union(
            mask_set(b).difference(mask_set(a)),
        ),
{
    assert(forall|o: u32| o < 32 ==> ((((a ^ b) >> o) & 1u32 == 1u32) == (((a >> o) & 1u32 == 1u32)
        != ((b >> o) & 1u32 == 1u32)))) by (bit_vector);
    assert(mask_set(a ^ b) =~= mask_set(a).difference(mask_set(b)).union(
        mask_set(b).difference(mask_set(a)),
    ));
}

/// A single-bit mask at `k`, or-ed in, and-not-ed out, or tested.
pub proof fn lemma_mask_bit(m: u32, k: u32)
    requires
        k < 32,
    ensures
        (m & (1u32 << k) != 0) == mask_set(m).contains(k),
        mask_set(m | (1u32 << k)) == mask_set(m).insert(k),
        mask_set(m & !(1u32 << k)) == mask_set(m).remove(k),
{
    assert((m & (1u32 << k) != 0) == ((m >> k) & 1u32 == 1u32)) by (bit_vector)
        requires
            k < 32,
    ;
    assert(forall|o: u32| o < 32 ==> ((((m | (1u32 << k)) >> o) & 1u32 == 1u32) == (((m >> o) & 1u32
        == 1u32) || o == k))) by (bit_vector)
        requires
            k < 32,
    ;
    assert(forall|o: u32| o < 32 ==> ((((m & !(1u32 << k)) >> o) & 1u32 == 1u32) == (((m >> o)
        & 1u32 == 1u32) && o != k))) by (bit_vector)
        requires
            k < 32,
    ;
    assert(mask_set(m | (1u32 << k)) =~= mask_set(m).insert(k));
    assert(mask_set(m & !(1u32 << k)) =~= mask_set(m).remove(k));
}

/// `a & b == b` says exactly that every position of `b` is one of `a`.
pub proof fn lemma_mask_superset(a: u32, b: u32)
    ensures
        ((a & b) == b) == mask_set(b).subset_of(mask_set(a)),
{
    if (a & b) == b {
        assert(forall|o: u32| o < 32 ==> (((b >> o) & 1u32 == 1u32) ==> ((a >> o) & 1u32
            == 1u32))) by (bit_vector)
            requires
                (a & b) == b,
        ;
        assert forall|o: u32| #[trigger] mask_set(b).contains(o) implies mask_set(a).contains(
            o,
        ) by {
            assert(o < 32 && (b >> o) & 1u32 == 1u32);
        }
    } else {
        assert((b & !a) != 0 && ((b & !a) >> 0u32) == (b & !a)) by (bit_vector)
            requires
                (a & b) != b,
        ;
        let o = find_set_bit(b & !a, 0);
        assert(((b >> o) & 1u32 == 1u32) && !((a >> o) & 1u32 == 1u32)) by (bit_vector)
            requires
                o < 32 && ((b & !a) >> o) & 1u32 == 1u32,
        ;
        assert(mask_set(b).contains(o) && !mask_set(a).contains(o));
    }
}

} // verus!
