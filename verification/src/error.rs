//! The reasons for which a filter or a segment cannot be built or grown.

use vstd::prelude::*;

verus! {

/// Why a segment or a filter could not be made, or a filter could not grow.
#[derive(Debug, Clone, Copy, PartialEq, Eq)]
pub enum BloomError {
    /// A target capacity of zero: the initial one, or one that the growth
    /// function returned.
    InvalidCapacity,
    /// A rate of false positives that is not strictly between zero and one.
    InvalidProbability,
    /// The capacities of all segments no longer add up within `usize`.
    CapacityOverflow,
    /// A bitmap size that no segment can have: zero, or beyond what one
    /// allocation can hold.
    InvalidBitmapSize,
    /// No random seed could be had for the hash functions of a new segment.
    SeedUnavailable,
}

} // verus!
