//! A fixed-capacity Bloom filter over byte-string keys: one segment of a
//! scalable filter.

use crate::bitmap::{
    bloom_bits, bloom_check, bloom_check_and_set, bloom_keys, bloom_len, bloom_new,
    valid_bitmap_bytes, BITMAP_HEADER_BYTES,
};
use crate::error::BloomError;
use crate::rate::FalsePositiveRate;
use crate::view::SegmentView;
use crate::SizedMemory;
use bloomfilter::Bloom;
use vstd::prelude::*;

verus! {

/// A Bloom filter of fixed size: a bitmap, and the number of keys that it
/// was made for.
pub struct BloomFilter {
    filter: Bloom<[u8]>,
    maximum_items: Ghost<nat>,
}

impl View for BloomFilter {
    type V = SegmentView;

    closed spec fn view(&self) -> SegmentView {
        SegmentView {
            capacity: self.maximum_items@,
            keys: bloom_keys(self.filter),
            bytes: bloom_bits(self.filter) / 8,
        }
    }
}

impl BloomFilter {
    /// The invariant of a segment.
    pub open spec fn wf(&self) -> bool {
        self@.wf()
    }

    /// Whether `bytes` is a size that a bitmap can have.
    pub fn accepts_bitmap_bytes(bytes: usize) -> (ok: bool)
        ensures
            ok == valid_bitmap_bytes(bytes as int),
    {
        bytes > 0 && bytes <= (isize::MAX as usize) - BITMAP_HEADER_BYTES && bytes as u64 <= u64::MAX / 8
    }

    /// An empty segment for `maximum_items` keys at the rate
    /// `false_positive_probability`. `bitmap_sizer` gives the size of its
    /// bitmap in bytes from the two.
    pub fn new<S: Fn(usize, FalsePositiveRate) -> usize>(
        maximum_items: usize,
        false_positive_probability: FalsePositiveRate,
        bitmap_sizer: &S,
    ) -> (result: Result<BloomFilter, BloomError>)
        requires
            maximum_items > 0 && false_positive_probability.is_valid() ==> call_requires(
                *bitmap_sizer,
                (maximum_items, false_positive_probability),
            ),
        ensures
            maximum_items == 0 <==> result == Err::<BloomFilter, BloomError>(BloomError::InvalidCapacity),
            maximum_items > 0 && !false_positive_probability.is_valid() <==> result == Err::<
                BloomFilter,
                BloomError,
            >(BloomError::InvalidProbability),
            match result {
                Ok(segment) => {
                    &&& segment.wf()
                    &&& segment@.capacity == maximum_items
                    &&& segment@.keys == Set::<Seq<u8>>::empty()
                    &&& call_ensures(
                        *bitmap_sizer,
                        (maximum_items, false_positive_probability),
                        segment@.bytes as usize,
                    )
                },
                Err(error) => {
                    &&& error != BloomError::CapacityOverflow
                    &&& error == BloomError::InvalidBitmapSize ==> exists|bytes: usize|
                        call_ensures(*bitmap_sizer, (maximum_items, false_positive_probability), bytes)
                            && !valid_bitmap_bytes(bytes as int)
                    &&& error == BloomError::SeedUnavailable ==> exists|bytes: usize|
                        call_ensures(*bitmap_sizer, (maximum_items, false_positive_probability), bytes)
                            && valid_bitmap_bytes(bytes as int)
                },
            },
    {
        if maximum_items == 0 {
            return Err(BloomError::InvalidCapacity);
        }
        if !false_positive_probability.in_range() {
            return Err(BloomError::InvalidProbability);
        }
        let bitmap_bytes: usize = bitmap_sizer(maximum_items, false_positive_probability);
        Self::with_bitmap_bytes(maximum_items, bitmap_bytes)
    }

    /// An empty segment for `maximum_items` keys, with a bitmap of
    /// `bitmap_bytes` bytes.
    pub fn with_bitmap_bytes(maximum_items: usize, bitmap_bytes: usize) -> (result: Result<BloomFilter, BloomError>)
        ensures
            maximum_items == 0 <==> result == Err::<BloomFilter, BloomError>(BloomError::InvalidCapacity),
            maximum_items > 0 && !valid_bitmap_bytes(bitmap_bytes as int) <==> result == Err::<BloomFilter, BloomError>(
                BloomError::InvalidBitmapSize,
            ),
            result matches Err(error) ==> error != BloomError::CapacityOverflow && error
                != BloomError::InvalidProbability,
            result matches Ok(segment) ==> segment.wf() && segment@ == (SegmentView {
                capacity: maximum_items as nat,
                keys: Set::empty(),
                bytes: bitmap_bytes as nat,
            }),
    {
        if maximum_items == 0 {
            return Err(BloomError::InvalidCapacity);
        }
        if !Self::accepts_bitmap_bytes(bitmap_bytes) {
            return Err(BloomError::InvalidBitmapSize);
        }
        Self::from_outcome(maximum_items, bloom_new(bitmap_bytes, maximum_items))
    }

    /// The segment for `maximum_items` keys around the bitmap that `outcome`
    /// holds, where it holds one and a segment can have it. `outcome` is
    /// what `bloomfilter` gave when it was asked for a bitmap.
    pub fn from_outcome(maximum_items: usize, outcome: Result<Bloom<[u8]>, &'static str>) -> (result: Result<
        BloomFilter,
        BloomError,
    >)
        ensures
            match outcome {
                Ok(bloom) => if maximum_items == 0 {
                    result == Err::<BloomFilter, BloomError>(BloomError::InvalidCapacity)
                } else if !valid_bitmap_bytes(bloom_bits(bloom) as int / 8) {
                    result == Err::<BloomFilter, BloomError>(BloomError::InvalidBitmapSize)
                } else {
                    result matches Ok(segment) && segment.wf() && segment@ == (SegmentView {
                        capacity: maximum_items as nat,
                        keys: bloom_keys(bloom),
                        bytes: bloom_bits(bloom) / 8,
                    })
                },
                Err(_) => result == Err::<BloomFilter, BloomError>(BloomError::SeedUnavailable),
            },
    {
        match outcome {
            Ok(bloom) => {
                let bytes: u64 = bloom_len(&bloom) / 8;
                if maximum_items == 0 {
                    Err(BloomError::InvalidCapacity)
                } else if bytes > usize::MAX as u64 || !Self::accepts_bitmap_bytes(bytes as usize) {
                    Err(BloomError::InvalidBitmapSize)
                } else {
                    Ok(BloomFilter { filter: bloom, maximum_items: Ghost(maximum_items as nat) })
                }
            },
            Err(_) => Err(BloomError::SeedUnavailable),
        }
    }

    /// Whether the segment may hold `key`.
    pub fn might_contain(&self, key: &[u8]) -> (present: bool)
        requires
            self.wf(),
        ensures
            present == self@.keys.contains(key@),
    {
        bloom_check(&self.filter, key)
    }

    /// Records `key` and tells whether the segment answered for it before.
    pub fn insert(&mut self, key: &[u8]) -> (present: bool)
        requires
            old(self).wf(),
        ensures
            final(self).wf(),
            present == old(self)@.keys.contains(key@),
            final(self)@.keys.contains(key@),
            old(self)@.keys.subset_of(final(self)@.keys),
            final(self)@.capacity == old(self)@.capacity,
            final(self)@.bytes == old(self)@.bytes,
    {
        bloom_check_and_set(&mut self.filter, key)
    }
}

impl SizedMemory for Bloom<[u8]> {
    open spec fn heap_size(&self) -> nat {
        bloom_bits(*self) / 8
    }

    fn bytes_on_heap(&self) -> (bytes: u64) {
        let bits: u64 = bloom_len(self);
        assert(self.heap_size() == bits / 8);
        bits / 8
    }
}

impl SizedMemory for BloomFilter {
    open spec fn heap_size(&self) -> nat {
        self@.bytes
    }

    fn bytes_on_heap(&self) -> (bytes: u64) {
        assert(self.heap_size() == self.filter.heap_size());
        self.filter.bytes_on_heap()
    }
}

} // verus!
