//! Loudness values in LUFS.
//!
//! A loudness is a double-precision number. It is held here as its IEEE 754
//! bit pattern, and compared by integer arithmetic on that pattern: for two
//! numbers of the same sign the larger magnitude has the larger pattern, and a
//! negative number lies below a positive one. A NaN is no loudness and cannot
//! be made into one.

use vstd::prelude::*;

verus! {

/// The bit that holds the sign of a double.
pub const SIGN_BIT: u64 = 0x8000_0000_0000_0000;

/// The magnitude bits of an infinity. Larger magnitudes are NaNs.
pub const INFINITY_MAGNITUDE: u64 = 0x7ff0_0000_0000_0000;

/// The bit pattern of negative infinity.
pub const NEG_INFINITY_BITS: u64 = 0xfff0_0000_0000_0000;

/// The pattern without its sign bit.
pub open spec fn magnitude(bits: u64) -> int {
    if bits >= SIGN_BIT {
        bits - SIGN_BIT
    } else {
        bits as int
    }
}

/// Whether the pattern is that of a NaN.
pub open spec fn is_nan_bits(bits: u64) -> bool {
    magnitude(bits) > INFINITY_MAGNITUDE
}

/// An integer that orders bit patterns as the numbers they stand for are
/// ordered: the magnitude, negated where the sign bit is set. Both zeros have
/// rank 0.
pub open spec fn rank_of(bits: u64) -> int {
    if bits >= SIGN_BIT {
        -magnitude(bits)
    } else {
        magnitude(bits)
    }
}

/// A loudness in LUFS: a double-precision number other than a NaN.
///
/// Two values are `==` when their bit patterns are the same, so the two zeros
/// differ under `==` although neither is below the other.
#[derive(Clone, Copy, Debug, PartialEq, Eq)]
pub struct Loudness {
    bits: u64,
}

impl Loudness {
    #[verifier::type_invariant]
    spec fn is_number(self) -> bool {
        !is_nan_bits(self.bits)
    }

    /// The IEEE 754 bit pattern of the number.
    pub closed spec fn bits(self) -> u64 {
        self.bits
    }

    /// The place of the number in the order of all loudness values.
    pub open spec fn rank(self) -> int {
        rank_of(self.bits())
    }

    /// Whether this loudness is strictly less than `threshold`.
    pub open spec fn below(self, threshold: Loudness) -> bool {
        self.rank() < threshold.rank()
    }

    /// The loudness with the given bit pattern; none for the pattern of a NaN.
    pub fn from_bits(bits: u64) -> (made: Option<Loudness>)
        ensures
            is_nan_bits(bits) <==> made is None,
            made matches Some(l) ==> l.bits() == bits,
    {
        let mag: u64 = if bits >= SIGN_BIT {
            bits - SIGN_BIT
        } else {
            bits
        };
        if mag > INFINITY_MAGNITUDE {
            None
        } else {
            Some(Loudness { bits })
        }
    }

    /// The bit pattern of the number, never that of a NaN.
    pub fn to_bits(&self) -> (bits: u64)
        ensures
            bits == self.bits(),
            !is_nan_bits(bits),
    {
        proof {
            use_type_invariant(self);
        }
        self.bits
    }

    /// Positive zero, the loudness that a stream is taken to have before its
    /// first measurement.
    pub fn zero() -> (l: Loudness)
        ensures
            l.bits() == 0,
    {
        Loudness { bits: 0 }
    }

    /// Negative infinity, the loudness of a window that holds no energy.
    pub fn neg_infinity() -> (l: Loudness)
        ensures
            l.bits() == NEG_INFINITY_BITS,
    {
        Loudness { bits: NEG_INFINITY_BITS }
    }

    /// Whether this loudness is strictly less than `threshold`. Equal values,
    /// and the two zeros, are not below one another.
    pub fn is_below(&self, threshold: &Loudness) -> (less: bool)
        ensures
            less == self.below(*threshold),
    {
        let negative: bool = self.bits >= SIGN_BIT;
        let mag: u64 = if negative {
            self.bits - SIGN_BIT
        } else {
            self.bits
        };
        let other_negative: bool = threshold.bits >= SIGN_BIT;
        let other_mag: u64 = if other_negative {
            threshold.bits - SIGN_BIT
        } else {
            threshold.bits
        };
        if negative && other_negative {
            mag > other_mag
        } else if negative {
            mag != 0 || other_mag != 0
        } else if other_negative {
            false
        } else {
            mag < other_mag
        }
    }
}

/// A loudness is its bit pattern: two with the same pattern are the same.
pub proof fn lemma_same_bits_same_loudness(a: Loudness, b: Loudness)
    requires
        a.bits() == b.bits(),
    ensures
        a == b,
{
}

/// No loudness is below itself: the comparison is strict.
pub proof fn lemma_below_is_strict(a: Loudness)
    ensures
        !a.below(a),
{
}

/// Of two loudness values at most one is below the other, and `below` is
/// transitive: it is a strict order, in which values of equal rank (the two
/// zeros) are not told apart.
pub proof fn lemma_below_is_an_order(a: Loudness, b: Loudness, c: Loudness)
    ensures
        !(a.below(b) && b.below(a)),
        a.below(b) && b.below(c) ==> a.below(c),
        !a.below(b) && !b.below(a) ==> a.rank() == b.rank(),
{
}

/// Negative infinity is below every other number, and nothing is below it.
pub proof fn lemma_neg_infinity_is_least(a: Loudness)
    requires
        !is_nan_bits(a.bits()),
    ensures
        a.bits() != NEG_INFINITY_BITS ==> rank_of(NEG_INFINITY_BITS) < a.rank(),
        !(a.rank() < rank_of(NEG_INFINITY_BITS)),
{
}

} // verus!
