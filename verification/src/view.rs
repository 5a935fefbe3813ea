//! The mathematical model of a segment and of a scalable filter, and what
//! holds of it whatever the segments answer.

use crate::bitmap::valid_bitmap_bytes;
use crate::rate::FalsePositiveRate;
use vstd::prelude::*;

verus! {

/// What a segment is to its users.
pub struct SegmentView {
    /// The number of keys that the segment was made for.
    pub capacity: nat,
    /// The keys that the segment answers for.
    pub keys: Set<Seq<u8>>,
    /// The size of the segment's bitmap, in bytes.
    pub bytes: nat,
}

impl SegmentView {
    /// A segment has room for at least one key, and a bitmap of a size that
    /// a bitmap can have.
    pub open spec fn wf(self) -> bool {
        &&& 0 < self.capacity <= usize::MAX
        &&& valid_bitmap_bytes(self.bytes as int)
    }
}

/// What a scalable filter is to its users: the rate of false positives that
/// each of its segments is made for, the segments, oldest first, and the
/// number of keys that it took as new.
pub struct FilterView {
    pub false_positive_probability: FalsePositiveRate,
    pub segments: Seq<SegmentView>,
    pub inserted: nat,
}

/// The sum of the capacities that the segments were made for.
pub open spec fn total_capacity(segments: Seq<SegmentView>) -> nat
    decreases segments.len(),
{
    if segments.len() == 0 {
        0
    } else {
        total_capacity(segments.drop_last()) + segments.last().capacity
    }
}

/// The sum of the sizes of the segments' bitmaps, in bytes.
pub open spec fn total_bitmap_bytes(segments: Seq<SegmentView>) -> nat
    decreases segments.len(),
{
    if segments.len() == 0 {
        0
    } else {
        total_bitmap_bytes(segments.drop_last()) + segments.last().bytes
    }
}

impl FilterView {
    /// The number of keys that all segments together were made for.
    pub open spec fn capacity(self) -> nat {
        total_capacity(self.segments)
    }

    /// The bytes of all bitmaps together.
    pub open spec fn heap_size(self) -> nat {
        total_bitmap_bytes(self.segments)
    }

    /// Whether the next key has to wait for a new segment.
    pub open spec fn is_full(self) -> bool {
        self.inserted >= self.capacity()
    }

    /// The newest segment.
    pub open spec fn newest(self) -> SegmentView {
        self.segments.last()
    }

    /// Whether one of the `count` oldest segments answers for `key`.
    pub open spec fn reports_within(self, key: Seq<u8>, count: int) -> bool {
        exists|i: int|
            0 <= i < count && i < self.segments.len() && (#[trigger] self.segments[i]).keys.contains(key)
    }

    /// Whether any segment answers for `key`.
    pub open spec fn reports(self, key: Seq<u8>) -> bool {
        self.reports_within(key, self.segments.len() as int)
    }

    /// Whether a segment other than the newest answers for `key`.
    pub open spec fn reports_superseded(self, key: Seq<u8>) -> bool {
        self.reports_within(key, self.segments.len() - 1)
    }

    /// Whether `self` can come after `earlier` in the life of one filter:
    /// the rate is the same, no segment has gone or changed its size, none
    /// but the newest of `earlier` has changed at all, that one has lost no
    /// key, and the count of keys has not gone down.
    pub open spec fn extends(self, earlier: FilterView) -> bool {
        &&& self.false_positive_probability == earlier.false_positive_probability
        &&& earlier.segments.len() <= self.segments.len()
        &&& earlier.inserted <= self.inserted
        &&& forall|i: int|
            0 <= i < earlier.segments.len() - 1 ==> #[trigger] self.segments[i] == earlier.segments[i]
        &&& forall|i: int|
            0 <= i < earlier.segments.len() ==> {
                &&& (#[trigger] self.segments[i]).capacity == earlier.segments[i].capacity
                &&& self.segments[i].bytes == earlier.segments[i].bytes
                &&& earlier.segments[i].keys.subset_of(self.segments[i].keys)
            }
    }
}

/// Adding a segment adds its capacity and the size of its bitmap.
pub proof fn lemma_totals_push(segments: Seq<SegmentView>, segment: SegmentView)
    ensures
        total_capacity(segments.push(segment)) == total_capacity(segments) + segment.capacity,
        total_bitmap_bytes(segments.push(segment)) == total_bitmap_bytes(segments) + segment.bytes,
{
    assert(segments.push(segment).drop_last() == segments);
}

/// The totals depend on the capacities and sizes of the segments alone.
pub proof fn lemma_totals_same(a: Seq<SegmentView>, b: Seq<SegmentView>)
    requires
        a.len() == b.len(),
        forall|i: int|
            0 <= i < a.len() ==> (#[trigger] a[i]).capacity == b[i].capacity && a[i].bytes == b[i].bytes,
    ensures
        total_capacity(a) == total_capacity(b),
        total_bitmap_bytes(a) == total_bitmap_bytes(b),
    decreases a.len(),
{
    if a.len() > 0 {
        lemma_totals_same(a.drop_last(), b.drop_last());
    }
}

/// No segment has a capacity above the total.
pub proof fn lemma_capacity_within_total(segments: Seq<SegmentView>, i: int)
    requires
        0 <= i < segments.len(),
    ensures
        segments[i].capacity <= total_capacity(segments),
    decreases segments.len(),
{
    if i < segments.len() - 1 {
        lemma_capacity_within_total(segments.drop_last(), i);
    }
}

/// Every view extends itself.
pub proof fn lemma_extends_reflexive(view: FilterView)
    ensures
        view.extends(view),
{
}

/// What extends an extension of a view extends that view.
pub proof fn lemma_extends_transitive(first: FilterView, second: FilterView, third: FilterView)
    requires
        second.extends(first),
        third.extends(second),
    ensures
        third.extends(first),
{
    assert forall|i: int| 0 <= i < first.segments.len() implies {
        &&& (#[trigger] third.segments[i]).capacity == first.segments[i].capacity
        &&& third.segments[i].bytes == first.segments[i].bytes
        &&& first.segments[i].keys.subset_of(third.segments[i].keys)
    } by {
        assert(first.segments[i].keys.subset_of(second.segments[i].keys));
        assert(second.segments[i].keys.subset_of(third.segments[i].keys));
    }
}

/// No false negatives: a key that a filter answers for is answered for by
/// every later state of that filter.
pub proof fn lemma_no_false_negatives(earlier: FilterView, later: FilterView, key: Seq<u8>)
    requires
        later.extends(earlier),
        earlier.reports(key),
    ensures
        later.reports(key),
{
    let i = choose|i: int|
        0 <= i < earlier.segments.len() && (#[trigger] earlier.segments[i]).keys.contains(key);
    assert(earlier.segments[i].keys.subset_of(later.segments[i].keys));
    assert(later.segments[i].keys.contains(key));
}

} // verus!
