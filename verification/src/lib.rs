//! A scalable Bloom filter: an approximate-membership set without a capacity
//! limit, built as a chain of fixed-capacity Bloom filters.
//!
//! Keys are byte strings. A filter never denies a key that it took, and it
//! grows by one segment whenever the keys taken as new have used up the
//! capacity of the segments that are there; no segment is rebuilt. The
//! bitmaps are those of the `bloomfilter` crate.
//!
//! The library holds no floating-point number. The rate of false positives
//! is kept as the bit pattern of a double, and the caller hands over the
//! function that turns a capacity and a rate into the size of a bitmap.

use vstd::prelude::*;

pub mod bitmap;
pub mod dynamic;
pub mod error;
pub mod fixed;
pub mod rate;
pub mod view;

verus! {

/// The value that a `u64` byte count reports for `bytes`: `bytes` itself
/// where it fits, `u64::MAX` beyond that.
pub open spec fn reported_bytes(bytes: nat) -> u64 {
    if bytes > u64::MAX {
        u64::MAX
    } else {
        bytes as u64
    }
}

/// Memory accounting: what a value takes up in its own fixed-size
/// representation ("on the stack") and in the backing storage that it owns
/// ("on the heap"). A type says what it owns; the rest follows.
pub trait SizedMemory {
    /// The bytes of backing storage that the value owns.
    spec fn heap_size(&self) -> nat;

    fn bytes_on_heap(&self) -> (bytes: u64)
        ensures
            bytes == reported_bytes(self.heap_size()),
    ;

    /// The size of the value's own representation, whatever it owns.
    fn bytes_on_stack(&self) -> (bytes: u64)
        ensures
            bytes == vstd::layout::spec_size_of_val::<Self>(self),
    {
        core::mem::size_of_val(self) as u64
    }

    /// Both together.
    fn total_bytes(&self) -> (bytes: u64)
        ensures
            bytes == reported_bytes(self.heap_size() + vstd::layout::spec_size_of_val::<Self>(self)),
    {
        self.bytes_on_heap().saturating_add(self.bytes_on_stack())
    }
}

/// Memory accounting composes: where a `u64` holds the total, the total that
/// is reported is the sum of what is reported for the heap and for the stack.
pub proof fn lemma_total_is_heap_plus_stack<T: SizedMemory>(value: &T)
    requires
        value.heap_size() + vstd::layout::spec_size_of_val::<T>(value) <= u64::MAX,
    ensures
        reported_bytes(value.heap_size() + vstd::layout::spec_size_of_val::<T>(value)) == reported_bytes(
            value.heap_size(),
        ) + vstd::layout::spec_size_of_val::<T>(value),
{
}

} // verus!
