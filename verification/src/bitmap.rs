//! The bitmap of the `bloomfilter` crate, as the rest of this library sees
//! it. Nothing in this file is proved: each contract restates what the
//! crate's source shows.

use bloomfilter::Bloom;
use vstd::prelude::*;

verus! {

/// `bloomfilter::Bloom`, a bitmap with the hash functions that lead into it.
/// Nothing inside it is visible here.
#[verifier::external_type_specification]
#[verifier::external_body]
#[verifier::reject_recursive_types(T)]
pub struct ExBloom<T: ?Sized>(Bloom<T>);

/// The bytes that `bloomfilter` puts in front of the bits of every bitmap,
/// within the same allocation.
pub const BITMAP_HEADER_BYTES: usize = 45;

/// The keys that a bitmap answers for: those on which `Bloom::check` returns
/// `true`, the bitmap being as it is.
pub uninterp spec fn bloom_keys(bloom: Bloom<[u8]>) -> Set<Seq<u8>>;

/// The number of bits in a bitmap, as `Bloom::len` returns it.
pub uninterp spec fn bloom_bits(bloom: Bloom<[u8]>) -> nat;

/// The sizes in bytes that `Bloom::new` takes without panicking: not zero,
/// with the header within one allocation, and with a number of bits that a
/// `u64` holds.
pub open spec fn valid_bitmap_bytes(bytes: int) -> bool {
    &&& 0 < bytes
    &&& bytes + BITMAP_HEADER_BYTES <= isize::MAX
    &&& 8 * bytes <= u64::MAX
}

/// `Bloom::new`, which makes a bitmap of `bytes` bytes with hash functions
/// chosen for `items` keys and seeded at random. It fails where no seed can
/// be had. A bitmap that comes back has every bit clear and at least one hash
/// function, so that it answers for no key, and it has eight bits to the
/// byte.
#[verifier::external_body]
pub(crate) fn bloom_new(bytes: usize, items: usize) -> (outcome: Result<Bloom<[u8]>, &'static str>)
    requires
        valid_bitmap_bytes(bytes as int),
        items > 0,
    ensures
        outcome matches Ok(bloom) ==> bloom_keys(bloom) == Set::<Seq<u8>>::empty()
            && bloom_bits(bloom) == 8 * bytes,
{
    Bloom::new(bytes, items)
}

/// `Bloom::check`, which tells whether every bit that `key` hashes to is
/// set. It divides by the number of bits.
#[verifier::external_body]
pub(crate) fn bloom_check(bloom: &Bloom<[u8]>, key: &[u8]) -> (present: bool)
    requires
        bloom_bits(*bloom) > 0,
    ensures
        present == bloom_keys(*bloom).contains(key@),
{
    bloom.check(key)
}

/// `Bloom::check_and_set`, which sets every bit that `key` hashes to and
/// tells whether all of them were set before. It clears no bit and changes
/// neither the hash functions nor the number of bits: the bitmap answers for
/// `key` afterwards, and for every key that it answered for before.
#[verifier::external_body]
pub(crate) fn bloom_check_and_set(bloom: &mut Bloom<[u8]>, key: &[u8]) -> (present: bool)
    requires
        bloom_bits(*old(bloom)) > 0,
    ensures
        present == bloom_keys(*old(bloom)).contains(key@),
        bloom_keys(*final(bloom)).contains(key@),
        bloom_keys(*old(bloom)).subset_of(bloom_keys(*final(bloom))),
        bloom_bits(*final(bloom)) == bloom_bits(*old(bloom)),
{
    bloom.check_and_set(key)
}

/// `Bloom::len`, the number of bits in the bitmap.
#[verifier::external_body]
pub(crate) fn bloom_len(bloom: &Bloom<[u8]>) -> (bits: u64)
    ensures
        bits == bloom_bits(*bloom),
{
    bloom.len()
}

} // verus!
