//! The scalable filter: a chain of segments that grows by one segment
//! whenever the keys taken so far have used up the capacity. Only the newest
//! segment takes keys; the others are asked and never changed again.

use crate::bitmap::valid_bitmap_bytes;
use crate::error::BloomError;
use crate::fixed::BloomFilter;
use crate::rate::FalsePositiveRate;
use crate::reported_bytes;
use crate::view::{
    lemma_capacity_within_total, lemma_totals_push, lemma_totals_same, total_bitmap_bytes,
    total_capacity, FilterView, SegmentView,
};
use crate::SizedMemory;
use vstd::prelude::*;

verus! {

/// Whether the capacity of segment `i + 1` is one that `grower` gave for the
/// capacity of segment `i`.
pub open spec fn grown_at<G: Fn(usize) -> usize>(grower: G, segments: Seq<SegmentView>, i: int) -> bool {
    call_ensures(grower, (segments[i].capacity as usize,), segments[i + 1].capacity as usize)
}

/// Whether the bitmap of segment `i` has a size that `sizer` gave for the
/// capacity of that segment and the rate `rate`.
pub open spec fn sized_at<S: Fn(usize, FalsePositiveRate) -> usize>(
    sizer: S,
    rate: FalsePositiveRate,
    segments: Seq<SegmentView>,
    i: int,
) -> bool {
    call_ensures(sizer, (segments[i].capacity as usize, rate), segments[i].bytes as usize)
}

/// The total capacity that a filter of total capacity `capacity` has after
/// growing by a segment for `next_max_items` keys.
pub fn grown_capacity(capacity: usize, next_max_items: usize) -> (result: Result<usize, BloomError>)
    ensures
        next_max_items == 0 <==> result == Err::<usize, BloomError>(BloomError::InvalidCapacity),
        next_max_items > 0 && capacity + next_max_items > usize::MAX <==> result == Err::<
            usize,
            BloomError,
        >(BloomError::CapacityOverflow),
        next_max_items > 0 && capacity + next_max_items <= usize::MAX <==> result == Ok::<
            usize,
            BloomError,
        >((capacity + next_max_items) as usize),
{
    if next_max_items == 0 {
        return Err(BloomError::InvalidCapacity);
    }
    match capacity.checked_add(next_max_items) {
        Some(total) => Ok(total),
        None => Err(BloomError::CapacityOverflow),
    }
}

/// An approximate set of byte strings without a limit on its size. It never
/// denies a key that it took; it may answer for a key that it never saw.
///
/// `G` gives the capacity of the next segment from that of the newest. `S`
/// gives the size of a segment's bitmap in bytes from the segment's capacity
/// and the rate of false positives.
pub struct ScalableBloomFilter<G, S> {
    items_inserted: usize,
    capacity: usize,
    false_positive_probability: FalsePositiveRate,
    current_filter_max_items: usize,
    max_items_grower: G,
    bitmap_sizer: S,
    filters: Vec<BloomFilter>,
}

impl<G, S> View for ScalableBloomFilter<G, S> {
    type V = FilterView;

    closed spec fn view(&self) -> FilterView {
        FilterView {
            false_positive_probability: self.false_positive_probability,
            segments: Seq::new(self.filters@.len(), |i: int| self.filters@[i]@),
            inserted: self.items_inserted as nat,
        }
    }
}

impl<G: Fn(usize) -> usize, S: Fn(usize, FalsePositiveRate) -> usize> ScalableBloomFilter<G, S> {
    /// The growth function.
    pub closed spec fn grower(&self) -> G {
        self.max_items_grower
    }

    /// The function that sizes the bitmaps.
    pub closed spec fn sizer(&self) -> S {
        self.bitmap_sizer
    }

    /// Whether the bookkeeping agrees with the segments.
    pub closed spec fn consistent(&self) -> bool {
        &&& self.capacity == self@.capacity()
        &&& self.current_filter_max_items == self@.newest().capacity
    }

    /// The invariant of a filter. There is a segment; the rate is a
    /// probability; the keys taken as new do not exceed the capacity; every
    /// segment but the first has a capacity that the growth function gave
    /// for that of the segment before it; every bitmap has a size that the
    /// sizing function gave for the segment's capacity and the rate; and
    /// both functions take every capacity above zero.
    pub open spec fn wf(&self) -> bool {
        &&& self.consistent()
        &&& self@.false_positive_probability.is_valid()
        &&& self@.segments.len() > 0
        &&& self@.inserted <= self@.capacity() <= usize::MAX
        &&& forall|i: int| 0 <= i < self@.segments.len() ==> (#[trigger] self@.segments[i]).wf()
        &&& forall|i: int| 0 <= i < self@.segments.len() - 1 ==> #[trigger] grown_at(self.grower(), self@.segments, i)
        &&& forall|i: int|
            0 <= i < self@.segments.len() ==> #[trigger] sized_at(
                self.sizer(),
                self@.false_positive_probability,
                self@.segments,
                i,
            )
        &&& forall|c: usize| c > 0 ==> call_requires(self.grower(), (c,))
        &&& forall|c: usize, rate: FalsePositiveRate|
            c > 0 && rate.is_valid() ==> call_requires(self.sizer(), (c, rate))
    }

    /// What a failure to grow says of the two functions: which of their
    /// results stood in the way. The growth function is asked for the
    /// capacity of the newest segment, the sizing function for the capacity
    /// that came back.
    pub open spec fn growth_failed(&self, error: BloomError) -> bool {
        let newest = self@.newest().capacity as usize;
        let rate = self@.false_positive_probability;
        match error {
            BloomError::InvalidCapacity => call_ensures(self.grower(), (newest,), 0usize),
            BloomError::InvalidProbability => false,
            BloomError::CapacityOverflow => exists|next: usize|
                call_ensures(self.grower(), (newest,), next) && self@.capacity() + next > usize::MAX,
            BloomError::InvalidBitmapSize => exists|next: usize, bytes: usize|
                call_ensures(self.grower(), (newest,), next) && 0 < next <= usize::MAX - self@.capacity()
                    && call_ensures(self.sizer(), (next, rate), bytes) && !valid_bitmap_bytes(bytes as int),
            BloomError::SeedUnavailable => exists|next: usize, bytes: usize|
                call_ensures(self.grower(), (newest,), next) && 0 < next <= usize::MAX - self@.capacity()
                    && call_ensures(self.sizer(), (next, rate), bytes) && valid_bitmap_bytes(bytes as int),
        }
    }

    /// A filter of one empty segment for `starting_max_items` keys. Every
    /// segment is made for the rate `false_positive_probability`:
    /// `bitmap_sizer` gives the size in bytes of the bitmap of a segment from
    /// the number of its keys and that rate. `max_items_grower` gives the
    /// capacity of the next segment from that of the newest.
    pub fn new(
        starting_max_items: usize,
        false_positive_probability: FalsePositiveRate,
        max_items_grower: G,
        bitmap_sizer: S,
    ) -> (result: Result<Self, BloomError>)
        requires
            forall|c: usize| c > 0 ==> call_requires(max_items_grower, (c,)),
            forall|c: usize, rate: FalsePositiveRate|
                c > 0 && rate.is_valid() ==> call_requires(bitmap_sizer, (c, rate)),
        ensures
            starting_max_items == 0 <==> result == Err::<Self, BloomError>(BloomError::InvalidCapacity),
            starting_max_items > 0 && !false_positive_probability.is_valid() <==> result == Err::<
                Self,
                BloomError,
            >(BloomError::InvalidProbability),
            match result {
                Ok(filter) => {
                    &&& filter.wf()
                    &&& filter.grower() == max_items_grower
                    &&& filter.sizer() == bitmap_sizer
                    &&& filter@.false_positive_probability == false_positive_probability
                    &&& filter@.inserted == 0
                    &&& filter@.segments.len() == 1
                    &&& filter@.segments[0].capacity == starting_max_items
                    &&& filter@.segments[0].keys == Set::<Seq<u8>>::empty()
                    &&& filter@.capacity() == starting_max_items
                },
                Err(error) => {
                    &&& error != BloomError::CapacityOverflow
                    &&& error == BloomError::InvalidBitmapSize ==> exists|bytes: usize|
                        call_ensures(bitmap_sizer, (starting_max_items, false_positive_probability), bytes)
                            && !valid_bitmap_bytes(bytes as int)
                    &&& error == BloomError::SeedUnavailable ==> exists|bytes: usize|
                        call_ensures(bitmap_sizer, (starting_max_items, false_positive_probability), bytes)
                            && valid_bitmap_bytes(bytes as int)
                },
            },
    {
        let first = match BloomFilter::new(starting_max_items, false_positive_probability, &bitmap_sizer) {
            Ok(first) => first,
            Err(error) => {
                return Err(error);
            },
        };
        let mut bloom_filters: Vec<BloomFilter> = Vec::with_capacity(3);
        bloom_filters.push(first);
        let filter = ScalableBloomFilter {
            items_inserted: 0,
            capacity: starting_max_items,
            false_positive_probability,
            current_filter_max_items: starting_max_items,
            max_items_grower,
            bitmap_sizer,
            filters: bloom_filters,
        };
        proof {
            assert(filter@.segments =~= Seq::<SegmentView>::empty().push(first@));
            lemma_totals_push(Seq::<SegmentView>::empty(), first@);
            assert(sized_at(filter.sizer(), false_positive_probability, filter@.segments, 0));
        }
        Ok(filter)
    }

    /// The sum of the capacities of all segments.
    pub fn capacity(&self) -> (capacity: usize)
        requires
            self.wf(),
        ensures
            capacity == self@.capacity(),
    {
        self.capacity
    }

    /// The number of keys taken as new.
    pub fn number_inserted(&self) -> (inserted: usize)
        requires
            self.wf(),
        ensures
            inserted == self@.inserted,
    {
        self.items_inserted
    }

    /// The number of segments.
    pub fn number_of_filters(&self) -> (filters: usize)
        requires
            self.wf(),
        ensures
            filters == self@.segments.len(),
    {
        self.filters.len()
    }

    /// Whether the filter may hold `key`: whether any segment answers for
    /// it.
    pub fn might_contain(&self, key: &[u8]) -> (present: bool)
        requires
            self.wf(),
        ensures
            present == self@.reports(key@),
    {
        self.any_contains(key, self.filters.len())
    }

    /// Records `key` unless a segment other than the newest already answers
    /// for it, and tells whether one did. Before that, a filter that is full
    /// grows by one segment; where it cannot, nothing changes.
    ///
    /// What the newest segment itself says of `key` is not asked: a key that
    /// only the newest segment holds is recorded and counted once more.
    pub fn insert(&mut self, key: &[u8]) -> (result: Result<bool, BloomError>)
        requires
            old(self).wf(),
        ensures
            final(self).wf(),
            final(self).grower() == old(self).grower(),
            final(self).sizer() == old(self).sizer(),
            final(self)@.extends(old(self)@),
            !old(self)@.is_full() ==> result is Ok,
            match result {
                Ok(present) => {
                    let before = old(self)@;
                    let after = final(self)@;
                    &&& after.segments.len() == before.segments.len() + if before.is_full() {
                        1nat
                    } else {
                        0nat
                    }
                    &&& before.is_full() ==> {
                        &&& after.segments.drop_last() == before.segments
                        &&& grown_at(final(self).grower(), after.segments, before.segments.len() - 1)
                        &&& sized_at(
                            final(self).sizer(),
                            after.false_positive_probability,
                            after.segments,
                            before.segments.len() as int,
                        )
                    }
                    &&& after.capacity() == before.capacity() + if before.is_full() {
                        after.newest().capacity
                    } else {
                        0nat
                    }
                    &&& present == after.reports_superseded(key@)
                    &&& after.inserted == before.inserted + if present {
                        0nat
                    } else {
                        1nat
                    }
                    &&& present ==> after.newest().keys == if before.is_full() {
                        Set::<Seq<u8>>::empty()
                    } else {
                        before.newest().keys
                    }
                    &&& !present ==> after.newest().keys.contains(key@)
                    &&& after.reports(key@)
                },
                Err(error) => {
                    &&& *final(self) == *old(self)
                    &&& old(self)@.is_full()
                    &&& old(self).growth_failed(error)
                },
            },
    {
        if self.items_inserted >= self.capacity {
            match self.grow() {
                Ok(()) => {},
                Err(error) => {
                    return Err(error);
                },
            }
        }
        let num_filters: usize = self.filters.len();
        let already_contains_key: bool = self.any_contains(key, num_filters - 1);
        if already_contains_key {
            return Ok(true);
        }
        let ghost grown = self@;
        let last_filter = &mut self.filters[num_filters - 1];
        last_filter.insert(key);
        self.items_inserted += 1;
        proof {
            let before = grown.segments;
            let after = self@.segments;
            let rate = self@.false_positive_probability;
            assert forall|i: int| 0 <= i < after.len() implies (#[trigger] after[i]).capacity
                == before[i].capacity && after[i].bytes == before[i].bytes && before[i].keys.subset_of(
                after[i].keys,
            ) && (i != num_filters - 1 ==> after[i] == before[i]) by {}
            lemma_totals_same(after, before);
            assert forall|i: int| 0 <= i < after.len() implies (#[trigger] after[i]).wf() by {
                assert(before[i].wf());
            }
            assert forall|i: int| 0 <= i < after.len() - 1 implies #[trigger] grown_at(
                self.grower(),
                after,
                i,
            ) by {
                assert(grown_at(old(self).grower(), before, i));
            }
            assert forall|i: int| 0 <= i < after.len() implies #[trigger] sized_at(
                self.sizer(),
                rate,
                after,
                i,
            ) by {
                assert(sized_at(old(self).sizer(), rate, before, i));
            }
            assert forall|c: usize| c > 0 implies call_requires(self.grower(), (c,)) by {
                assert(call_requires(old(self).grower(), (c,)));
            }
            assert forall|c: usize, rate: FalsePositiveRate| c > 0 && rate.is_valid() implies call_requires(
                self.sizer(),
                (c, rate),
            ) by {
                assert(call_requires(old(self).sizer(), (c, rate)));
            }
            assert(after[num_filters - 1].keys.contains(key@));
            assert(!self@.reports_superseded(key@)) by {
                if self@.reports_superseded(key@) {
                    let i = choose|i: int|
                        0 <= i < after.len() - 1 && i < after.len() && (#[trigger] after[i]).keys.contains(key@);
                    assert(before[i].keys.contains(key@));
                    assert(grown.reports_within(key@, num_filters - 1));
                }
            }
            if old(self)@.is_full() {
                assert(after.drop_last() =~= old(self)@.segments);
            }
        }
        Ok(false)
    }

    /// Whether one of the `count` oldest segments answers for `key`.
    fn any_contains(&self, key: &[u8], count: usize) -> (present: bool)
        requires
            self.wf(),
            count <= self@.segments.len(),
        ensures
            present == self@.reports_within(key@, count as int),
    {
        let mut i: usize = 0;
        while i < count
            invariant
                self.wf(),
                i <= count <= self@.segments.len(),
                !self@.reports_within(key@, i as int),
            decreases count - i,
        {
            assert(self@.segments[i as int].wf());
            if self.filters[i].might_contain(key) {
                assert(self@.segments[i as int].keys.contains(key@));
                return true;
            }
            i += 1;
        }
        false
    }

    /// Adds an empty segment whose capacity the growth function gives from
    /// that of the newest segment.
    fn grow(&mut self) -> (result: Result<(), BloomError>)
        requires
            old(self).wf(),
        ensures
            final(self).wf(),
            final(self).grower() == old(self).grower(),
            final(self).sizer() == old(self).sizer(),
            match result {
                Ok(()) => {
                    &&& final(self)@.false_positive_probability == old(self)@.false_positive_probability
                    &&& final(self)@.inserted == old(self)@.inserted
                    &&& final(self)@.segments.len() == old(self)@.segments.len() + 1
                    &&& final(self)@.segments.drop_last() == old(self)@.segments
                    &&& final(self)@.newest().keys == Set::<Seq<u8>>::empty()
                    &&& final(self)@.capacity() == old(self)@.capacity() + final(self)@.newest().capacity
                },
                Err(error) => {
                    &&& *final(self) == *old(self)
                    &&& old(self).growth_failed(error)
                },
            },
    {
        proof {
            assert(self@.segments[self@.segments.len() - 1].wf());
            assert(call_requires(self.grower(), (self.current_filter_max_items,)));
        }
        let next_max_items: usize = (self.max_items_grower)(self.current_filter_max_items);
        proof {
            assert(call_ensures(self.grower(), (self@.newest().capacity as usize,), next_max_items));
        }
        let capacity: usize = match grown_capacity(self.capacity, next_max_items) {
            Ok(capacity) => capacity,
            Err(error) => {
                return Err(error);
            },
        };
        proof {
            assert(call_requires(self.sizer(), (next_max_items, self@.false_positive_probability)));
        }
        let filter = match BloomFilter::new(next_max_items, self.false_positive_probability, &self.bitmap_sizer) {
            Ok(filter) => filter,
            Err(error) => {
                return Err(error);
            },
        };
        proof {
            lemma_totals_push(self@.segments, filter@);
        }
        self.filters.push(filter);
        self.current_filter_max_items = next_max_items;
        self.capacity = capacity;
        proof {
            let before = old(self)@.segments;
            let after = self@.segments;
            let rate = self@.false_positive_probability;
            assert(after =~= before.push(filter@));
            assert(after.drop_last() =~= before);
            assert forall|i: int| 0 <= i < after.len() implies (#[trigger] after[i]).wf() by {
                if i < before.len() {
                    assert(before[i].wf());
                }
            }
            assert forall|i: int| 0 <= i < after.len() - 1 implies #[trigger] grown_at(
                self.grower(),
                after,
                i,
            ) by {
                if i < before.len() - 1 {
                    assert(grown_at(old(self).grower(), before, i));
                }
            }
            assert forall|i: int| 0 <= i < after.len() implies #[trigger] sized_at(
                self.sizer(),
                rate,
                after,
                i,
            ) by {
                if i < before.len() {
                    assert(sized_at(old(self).sizer(), rate, before, i));
                }
            }
        }
        Ok(())
    }
}

impl<G, S> ScalableBloomFilter<G, S> {
    /// The size of each segment's bitmap in bytes, oldest segment first.
    pub fn bytes_on_heap_by_filter(&self) -> (sizes: Vec<u64>)
        ensures
            sizes@.len() == self@.segments.len(),
            forall|i: int| 0 <= i < sizes@.len() ==> sizes@[i] == reported_bytes(self@.segments[i].bytes),
    {
        let mut sizes: Vec<u64> = Vec::new();
        let mut i: usize = 0;
        while i < self.filters.len()
            invariant
                i <= self.filters@.len(),
                sizes@.len() == i,
                forall|j: int| 0 <= j < i ==> sizes@[j] == reported_bytes(self@.segments[j].bytes),
            decreases self.filters@.len() - i,
        {
            sizes.push(self.filters[i].bytes_on_heap());
            i += 1;
        }
        sizes
    }
}

impl<G, S> SizedMemory for ScalableBloomFilter<G, S> {
    /// The bitmaps of all segments together.
    open spec fn heap_size(&self) -> nat {
        self@.heap_size()
    }

    fn bytes_on_heap(&self) -> (bytes: u64)
        ensures
            bytes == reported_bytes(total_bitmap_bytes(self@.segments)),
    {
        let mut total: u64 = 0;
        let mut i: usize = 0;
        while i < self.filters.len()
            invariant
                i <= self.filters@.len(),
                total == reported_bytes(total_bitmap_bytes(self@.segments.take(i as int))),
            decreases self.filters@.len() - i,
        {
            proof {
                assert(self@.segments.take(i + 1) =~= self@.segments.take(i as int).push(self@.segments[i as int]));
                lemma_totals_push(self@.segments.take(i as int), self@.segments[i as int]);
            }
            total = total.saturating_add(self.filters[i].bytes_on_heap());
            i += 1;
        }
        proof {
            assert(self@.segments.take(i as int) =~= self@.segments);
        }
        total
    }
}

/// The capacity of the segment that `growths` growth steps lead to from a
/// first segment for `first` keys, where `growth` gives each next capacity.
pub open spec fn grown_segment_capacity(growth: spec_fn(usize) -> usize, first: usize, growths: nat) -> usize
    decreases growths,
{
    if growths == 0 {
        first
    } else {
        growth(grown_segment_capacity(growth, first, (growths - 1) as nat))
    }
}

/// The capacity of the first segment and of those that `growths` growth
/// steps add to it, summed.
pub open spec fn chain_capacity(growth: spec_fn(usize) -> usize, first: usize, growths: nat) -> nat
    decreases growths,
{
    if growths == 0 {
        first as nat
    } else {
        chain_capacity(growth, first, (growths - 1) as nat) + grown_segment_capacity(
            growth,
            first,
            growths,
        ) as nat
    }
}

/// Along a chain of segments that `growth` describes, segment `count - 1`
/// has the capacity that as many growth steps lead to, and the capacities of
/// the first `count` segments add up to the sum along the chain.
proof fn lemma_chain_prefix<G: Fn(usize) -> usize>(
    grower: G,
    growth: spec_fn(usize) -> usize,
    segments: Seq<SegmentView>,
    count: int,
)
    requires
        0 < count <= segments.len(),
        total_capacity(segments) <= usize::MAX,
        forall|i: int| 0 <= i < segments.len() - 1 ==> #[trigger] grown_at(grower, segments, i),
        forall|c: usize, next: usize| call_ensures(grower, (c,), next) ==> next == growth(c),
    ensures
        segments[count - 1].capacity == grown_segment_capacity(
            growth,
            segments[0].capacity as usize,
            (count - 1) as nat,
        ),
        total_capacity(segments.take(count)) == chain_capacity(
            growth,
            segments[0].capacity as usize,
            (count - 1) as nat,
        ),
    decreases count,
{
    lemma_capacity_within_total(segments, count - 1);
    assert(segments.take(count).drop_last() =~= segments.take(count - 1));
    if count == 1 {
        assert(total_capacity(segments.take(0)) == 0);
    } else {
        lemma_chain_prefix(grower, growth, segments, count - 1);
        lemma_capacity_within_total(segments, count - 2);
        assert(grown_at(grower, segments, count - 2));
    }
}

impl<G: Fn(usize) -> usize, S: Fn(usize, FalsePositiveRate) -> usize> ScalableBloomFilter<G, S> {
    /// Capacity accounting: where the growth function computes `growth`,
    /// the capacity of a filter is that of its first segment plus what
    /// `growth` gives along the chain, once for each time the filter grew.
    pub proof fn lemma_capacity_accounting(&self, growth: spec_fn(usize) -> usize)
        requires
            self.wf(),
            forall|c: usize, next: usize| call_ensures(self.grower(), (c,), next) ==> next == growth(c),
        ensures
            self@.capacity() == chain_capacity(
                growth,
                self@.segments[0].capacity as usize,
                (self@.segments.len() - 1) as nat,
            ),
            forall|i: int|
                0 <= i < self@.segments.len() ==> (#[trigger] self@.segments[i]).capacity
                    == grown_segment_capacity(growth, self@.segments[0].capacity as usize, i as nat),
    {
        let segments = self@.segments;
        lemma_chain_prefix(self.grower(), growth, segments, segments.len() as int);
        assert(segments.take(segments.len() as int) =~= segments);
        assert forall|i: int| 0 <= i < segments.len() implies (#[trigger] segments[i]).capacity
            == grown_segment_capacity(growth, segments[0].capacity as usize, i as nat) by {
            lemma_chain_prefix(self.grower(), growth, segments, i + 1);
        }
    }
}

} // verus!
