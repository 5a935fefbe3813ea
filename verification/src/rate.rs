//! The rate of false positives that the segments of a filter are made for.

use vstd::prelude::*;

verus! {

/// The bit pattern of the double 1.0.
pub const ONE_BITS: u64 = 0x3FF0_0000_0000_0000;

/// A probability, held as the bit pattern of a double (IEEE 754, binary64).
///
/// This library computes nothing from a rate. It tells whether the rate is a
/// probability that a segment can be made for, and hands it to the function
/// that sizes the bitmaps.
#[derive(Debug, Clone, Copy, PartialEq, Eq)]
pub struct FalsePositiveRate {
    bits: u64,
}

impl FalsePositiveRate {
    /// The bit pattern.
    pub closed spec fn bits(self) -> u64 {
        self.bits
    }

    /// A rate is valid where it lies strictly between zero and one. The
    /// pattern zero is that of 0.0. Doubles above zero are ordered as their
    /// bit patterns are; the patterns from that of 1.0 on are those of 1.0
    /// and above, of the infinities, of what is no number, and of -0.0 and
    /// below.
    pub open spec fn is_valid(self) -> bool {
        0 < self.bits() < ONE_BITS
    }

    /// The rate with the bit pattern `bits`.
    pub fn from_bits(bits: u64) -> (rate: FalsePositiveRate)
        ensures
            rate.bits() == bits,
    {
        FalsePositiveRate { bits }
    }

    /// The bit pattern of the rate.
    pub fn to_bits(&self) -> (bits: u64)
        ensures
            bits == self.bits(),
    {
        self.bits
    }

    /// Whether the rate lies strictly between zero and one.
    pub fn in_range(&self) -> (valid: bool)
        ensures
            valid == self.is_valid(),
    {
        0 < self.bits && self.bits < ONE_BITS
    }
}

} // verus!
