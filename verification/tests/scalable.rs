use bloom::dynamic::{grown_capacity, ScalableBloomFilter};
use bloom::error::BloomError;
use bloom::rate::FalsePositiveRate;
use bloom::SizedMemory;
use bloomfilter::Bloom;

fn double(capacity: usize) -> usize {
    2 * capacity
}

fn same(capacity: usize) -> usize {
    capacity
}

fn no_capacity(_capacity: usize) -> usize {
    0
}

fn all_capacity(_capacity: usize) -> usize {
    usize::MAX
}

fn no_bytes(_items: usize, _rate: FalsePositiveRate) -> usize {
    0
}

fn all_bytes(_items: usize, _rate: FalsePositiveRate) -> usize {
    usize::MAX
}

fn sixteen_each(items: usize, _rate: FalsePositiveRate) -> usize {
    16 * items
}

fn only_the_first(items: usize, _rate: FalsePositiveRate) -> usize {
    if items == 1 {
        8
    } else {
        0
    }
}

fn rate(false_positive_probability: f64) -> FalsePositiveRate {
    FalsePositiveRate::from_bits(false_positive_probability.to_bits())
}

/// The size in bytes that `bloomfilter` recommends for a bitmap of `items`
/// keys at the rate `rate`.
fn sizer(items: usize, rate: FalsePositiveRate) -> usize {
    Bloom::<[u8]>::compute_bitmap_size(items, f64::from_bits(rate.to_bits()))
}

/// The `index`-th of a run of distinct keys.
fn key(index: u64) -> [u8; 8] {
    index.wrapping_mul(0x9E37_79B9_7F4A_7C15).to_le_bytes()
}

#[test]
fn new_filter_is_one_empty_segment() {
    let filter = ScalableBloomFilter::new(10, rate(0.1f64), double, sixteen_each).unwrap();
    assert_eq!(1, filter.number_of_filters());
    assert_eq!(10, filter.capacity());
    assert_eq!(0, filter.number_inserted());
    assert_eq!(false, filter.might_contain(b"dog"));
    assert_eq!(160, filter.bytes_on_heap());
}

#[test]
fn new_filter_needs_capacity() {
    assert!(matches!(
        ScalableBloomFilter::new(0, rate(0.1f64), double, sixteen_each),
        Err(BloomError::InvalidCapacity)
    ));
}

#[test]
fn new_filter_needs_a_probability() {
    for refused in [0.0f64, -0.0, 1.0, 1.5, -0.1, f64::INFINITY, f64::NEG_INFINITY, f64::NAN] {
        assert!(matches!(
            ScalableBloomFilter::new(10, rate(refused), double, sixteen_each),
            Err(BloomError::InvalidProbability)
        ));
    }
    for taken in [0.1f64, 0.5, 0.999999, f64::MIN_POSITIVE, 5e-324] {
        assert!(ScalableBloomFilter::new(10, rate(taken), double, sixteen_each).is_ok());
    }
}

#[test]
fn new_filter_asks_for_capacity_first() {
    assert!(matches!(
        ScalableBloomFilter::new(0, rate(2.0f64), double, sixteen_each),
        Err(BloomError::InvalidCapacity)
    ));
}

#[test]
fn new_filter_needs_a_bitmap() {
    assert!(matches!(
        ScalableBloomFilter::new(10, rate(0.1f64), double, no_bytes),
        Err(BloomError::InvalidBitmapSize)
    ));
    assert!(matches!(
        ScalableBloomFilter::new(10, rate(0.1f64), double, all_bytes),
        Err(BloomError::InvalidBitmapSize)
    ));
}

#[test]
fn insert_records_a_new_key() {
    let mut filter = ScalableBloomFilter::new(10, rate(0.1f64), double, sixteen_each).unwrap();
    assert_eq!(Ok(false), filter.insert(b"dog"));
    assert_eq!(1, filter.number_inserted());
    assert_eq!(true, filter.might_contain(b"dog"));
    assert_eq!(1, filter.number_of_filters());
}

#[test]
fn insert_counts_a_key_of_the_newest_segment_again() {
    let mut filter = ScalableBloomFilter::new(10, rate(0.1f64), double, sixteen_each).unwrap();
    assert_eq!(Ok(false), filter.insert(b"dog"));
    assert_eq!(Ok(false), filter.insert(b"dog"));
    assert_eq!(2, filter.number_inserted());
    assert_eq!(1, filter.number_of_filters());
}

#[test]
fn insert_finds_a_key_of_an_older_segment() {
    let mut filter = ScalableBloomFilter::new(1, rate(0.1f64), double, sixteen_each).unwrap();
    assert_eq!(Ok(false), filter.insert(b"dog"));
    assert_eq!(Ok(true), filter.insert(b"dog"));
    assert_eq!(2, filter.number_of_filters());
    assert_eq!(1, filter.number_inserted());
    assert_eq!(3, filter.capacity());
}

#[test]
fn growth_waits_for_the_key_after_the_last() {
    let mut filter = ScalableBloomFilter::new(10, rate(0.001f64), double, sizer).unwrap();
    for i in 0..10 {
        assert_eq!(Ok(false), filter.insert(&key(i)));
        assert_eq!(1, filter.number_of_filters());
    }
    assert_eq!(10, filter.number_inserted());
    assert_eq!(10, filter.capacity());
    filter.insert(&key(10)).unwrap();
    assert_eq!(2, filter.number_of_filters());
    assert_eq!(30, filter.capacity());
}

#[test]
fn capacity_adds_up_along_the_chain() {
    let mut filter = ScalableBloomFilter::new(10, rate(0.001f64), double, sizer).unwrap();
    let mut expected = 10;
    let mut next = 10;
    let mut filters = 1;
    for i in 0..500 {
        let full = filter.number_inserted() >= filter.capacity();
        filter.insert(&key(i)).unwrap();
        if full {
            next = 2 * next;
            expected += next;
            filters += 1;
        }
        assert_eq!(filters, filter.number_of_filters());
        assert_eq!(expected, filter.capacity());
        assert!(filter.number_inserted() <= filter.capacity());
    }
    assert!(filters >= 5);
    assert_eq!(10 * ((1usize << filters) - 1), filter.capacity());
}

#[test]
fn capacity_of_equal_segments() {
    let mut filter = ScalableBloomFilter::new(4, rate(0.0001f64), same, sizer).unwrap();
    for i in 0..40 {
        filter.insert(&key(i)).unwrap();
    }
    assert_eq!(4 * filter.number_of_filters(), filter.capacity());
}

#[test]
fn no_key_is_lost() {
    let mut filter = ScalableBloomFilter::new(3, rate(0.05f64), double, sizer).unwrap();
    for i in 0..300 {
        filter.insert(&key(i)).unwrap();
        for j in 0..=i {
            assert!(filter.might_contain(&key(j)));
        }
    }
    assert!(filter.number_of_filters() > 1);
}

#[test]
fn false_positives_stay_near_the_rate() {
    let wanted = 0.05f64;
    let mut filter = ScalableBloomFilter::new(1000, rate(wanted), double, sizer).unwrap();
    for i in 0..1000 {
        filter.insert(&key(i)).unwrap();
    }
    assert_eq!(1, filter.number_of_filters());
    let sample = 20000u64;
    let mut positives = 0u64;
    for i in 0..sample {
        if filter.might_contain(&key(1_000_000 + i)) {
            positives += 1;
        }
    }
    let observed = positives as f64 / sample as f64;
    assert!(observed <= 5.0 * wanted * filter.number_of_filters() as f64);
}

#[test]
fn false_positives_stay_near_the_rate_after_growth() {
    let wanted = 0.02f64;
    let mut filter = ScalableBloomFilter::new(100, rate(wanted), double, sizer).unwrap();
    let mut i = 0;
    while filter.number_inserted() < filter.capacity() || filter.number_of_filters() < 3 {
        filter.insert(&key(i)).unwrap();
        i += 1;
    }
    assert_eq!(3, filter.number_of_filters());
    let sample = 20000u64;
    let mut positives = 0u64;
    for j in 0..sample {
        if filter.might_contain(&key(1_000_000_000 + j)) {
            positives += 1;
        }
    }
    let observed = positives as f64 / sample as f64;
    assert!(observed <= 5.0 * wanted * filter.number_of_filters() as f64);
}

#[test]
fn growth_to_no_capacity_fails_and_changes_nothing() {
    let mut filter = ScalableBloomFilter::new(2, rate(0.1f64), no_capacity, sixteen_each).unwrap();
    assert_eq!(Ok(false), filter.insert(b"dog"));
    assert_eq!(Ok(false), filter.insert(b"cat"));
    assert_eq!(Err(BloomError::InvalidCapacity), filter.insert(b"mouse"));
    assert_eq!(1, filter.number_of_filters());
    assert_eq!(2, filter.number_inserted());
    assert_eq!(2, filter.capacity());
    assert_eq!(false, filter.might_contain(b"mouse"));
    assert_eq!(true, filter.might_contain(b"dog"));
    assert_eq!(Err(BloomError::InvalidCapacity), filter.insert(b"dog"));
}

#[test]
fn growth_beyond_usize_fails_and_changes_nothing() {
    let mut filter = ScalableBloomFilter::new(1, rate(0.1f64), all_capacity, sixteen_each).unwrap();
    assert_eq!(Ok(false), filter.insert(b"dog"));
    assert_eq!(Err(BloomError::CapacityOverflow), filter.insert(b"cat"));
    assert_eq!(1, filter.number_of_filters());
    assert_eq!(1, filter.capacity());
    assert_eq!(1, filter.number_inserted());
}

#[test]
fn growth_without_a_bitmap_fails_and_changes_nothing() {
    let mut filter = ScalableBloomFilter::new(1, rate(0.1f64), double, only_the_first).unwrap();
    assert_eq!(Ok(false), filter.insert(b"dog"));
    assert_eq!(Err(BloomError::InvalidBitmapSize), filter.insert(b"cat"));
    assert_eq!(1, filter.number_of_filters());
    assert_eq!(1, filter.capacity());
    assert_eq!(8, filter.bytes_on_heap());
}

#[test]
fn grown_capacity_adds_the_next_segment() {
    assert_eq!(Ok(30), grown_capacity(10, 20));
    assert_eq!(Ok(1), grown_capacity(0, 1));
    assert_eq!(Ok(usize::MAX), grown_capacity(usize::MAX - 1, 1));
}

#[test]
fn grown_capacity_refuses_an_empty_segment() {
    assert_eq!(Err(BloomError::InvalidCapacity), grown_capacity(10, 0));
    assert_eq!(Err(BloomError::InvalidCapacity), grown_capacity(usize::MAX, 0));
}

#[test]
fn grown_capacity_refuses_what_usize_cannot_hold() {
    assert_eq!(Err(BloomError::CapacityOverflow), grown_capacity(usize::MAX, 1));
    assert_eq!(Err(BloomError::CapacityOverflow), grown_capacity(1, usize::MAX));
}

#[test]
fn heap_is_the_sum_over_the_segments() {
    let mut filter = ScalableBloomFilter::new(2, rate(0.1f64), double, sixteen_each).unwrap();
    assert_eq!(vec![32u64], filter.bytes_on_heap_by_filter());
    for i in 0..10 {
        filter.insert(&key(i)).unwrap();
    }
    let sizes = filter.bytes_on_heap_by_filter();
    assert_eq!(filter.number_of_filters(), sizes.len());
    assert_eq!(32, sizes[0]);
    assert_eq!(64, sizes[1]);
    assert_eq!(sizes.iter().sum::<u64>(), filter.bytes_on_heap());
}

#[test]
fn total_is_heap_plus_stack() {
    let mut filter = ScalableBloomFilter::new(2, rate(0.1f64), double, sixteen_each).unwrap();
    for i in 0..100 {
        filter.insert(&key(i)).unwrap();
        assert_eq!(filter.bytes_on_heap() + filter.bytes_on_stack(), filter.total_bytes());
    }
    assert_eq!(std::mem::size_of_val(&filter) as u64, filter.bytes_on_stack());
}
