use vstd::prelude::*;

verus! {

/// The ordinal-mapping contract: a bijection between the values of an
/// eligible C-like enum type and a set of integer ordinals below 32.
///
/// `ordinal` is the mathematical ordinal of a value; `to_u32` computes it,
/// and `from_u32` maps an ordinal that some value has back to that value.
/// Implementations must show that every ordinal is below 32 and that no two
/// values share an ordinal, so `from_u32(to_u32(e))` is `e` itself.
pub trait CLike: Sized {
    /// The ordinal of this value: its zero-based position in the enum.
    spec fn ordinal(&self) -> u32;

    /// Every ordinal fits in the 32-bit mask.
    proof fn ordinal_in_range(&self)
        ensures
            self.ordinal() < 32,
    ;

    /// No two distinct values share an ordinal.
    proof fn ordinal_injective(&self, other: &Self)
        ensures
            self.ordinal() == other.ordinal() ==> self == other,
    ;

    /// Converts a value to its ordinal.
    fn to_u32(&self) -> (r: u32)
        ensures
            r == self.ordinal(),
    ;

    /// Converts an ordinal back to the value that has it. Only ordinals
    /// actually taken by some value may be passed in.
    fn from_u32(v: u32) -> (r: Self)
        requires
            exists|e: Self| e.ordinal() == v,
        ensures
            r.ordinal() == v,
    ;
}

} // verus!
