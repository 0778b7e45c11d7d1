//! Importance weights.

use vstd::prelude::*;

verus! {

/// The largest bit pattern of a weight: that of positive infinity.
pub const MAX_WEIGHT_BITS: u64 = 0x7FF0_0000_0000_0000;

/// A weight that is never negative.
///
/// It is held as the bit pattern of an IEEE 754 binary64 number. The patterns
/// from zero up to that of positive infinity are exactly the numbers from
/// zero upwards, in the same order; a pattern above that stands for a negative
/// number or for no number, and no weight holds one.
#[derive(Clone, Copy, PartialEq, Eq, Structural, Debug)]
pub struct Weight {
    bits: u64,
}

impl Weight {
    #[verifier::type_invariant]
    spec fn in_range(self) -> bool {
        self.bits <= MAX_WEIGHT_BITS
    }

    /// The bit pattern of the weight.
    pub closed spec fn spec_bits(self) -> u64 {
        self.bits
    }

    /// Whether the weight stands for a number that is zero or more.
    pub open spec fn is_non_negative(self) -> bool {
        self.spec_bits() <= MAX_WEIGHT_BITS
    }

    /// Whether the weight is zero.
    pub open spec fn is_zero(self) -> bool {
        self.spec_bits() == 0
    }

    /// The weight zero.
    pub closed spec fn spec_zero() -> Weight {
        Weight { bits: 0 }
    }

    /// The weight zero.
    #[verifier::when_used_as_spec(spec_zero)]
    pub fn zero() -> (w: Weight)
        ensures
            w == Weight::spec_zero(),
            w.is_zero(),
            w.is_non_negative(),
    {
        Weight { bits: 0 }
    }

    /// The weight zero is zero.
    pub proof fn lemma_zero()
        ensures
            Weight::spec_zero().is_zero(),
            Weight::spec_zero().is_non_negative(),
    {
    }

    /// The weight with the given bit pattern, unless the pattern stands for a
    /// negative number or for no number.
    pub fn from_bits(bits: u64) -> (r: Option<Weight>)
        ensures
            r is Some <==> bits <= MAX_WEIGHT_BITS,
            r matches Some(w) ==> w.spec_bits() == bits,
    {
        if bits <= MAX_WEIGHT_BITS {
            Some(Weight { bits })
        } else {
            None
        }
    }

    /// The bit pattern of the weight.
    #[verifier::when_used_as_spec(spec_bits)]
    pub fn bits(self) -> (b: u64)
        ensures
            b == self.spec_bits(),
            self.is_non_negative(),
    {
        proof {
            use_type_invariant(&self);
        }
        self.bits
    }

    /// Two weights with the same bit pattern are the same weight.
    pub proof fn lemma_same_bits(self, other: Weight)
        requires
            self.spec_bits() == other.spec_bits(),
        ensures
            self == other,
    {
    }
}

impl Default for Weight {
    fn default() -> (w: Weight)
        ensures
            w == Weight::spec_zero(),
    {
        Weight { bits: 0 }
    }
}

} // verus!
