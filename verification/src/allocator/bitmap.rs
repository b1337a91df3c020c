//! The page bitmap: one bit per page, kept by `bitmap_allocator`.
//!
//! Nothing in this module is proved. Each function hands one request to the
//! outside bitmap and states, over [`free_bits`], what that request does.

use bitmap_allocator::BitAlloc;
use bitmap_allocator::BitAlloc1M;
use vstd::arithmetic::power2::pow2;
use vstd::prelude::*;
use vstd::set_lib::set_int_range;

verus! {

/// Number of bits in a [`PageBitmap`]; they are numbered from zero.
pub const BITMAP_CAP: usize = 0x10_0000;

/// `bitmap_allocator::BitAlloc1M`, held as it is: a bitmap of
/// [`BITMAP_CAP`] bits, each either free or taken.
#[verifier::external_body]
pub struct PageBitmap {
    inner: BitAlloc1M,
}

/// The positions of the bits that the bitmap holds as free.
pub uninterp spec fn free_bits(bitmap: PageBitmap) -> Set<int>;

/// A run of `len` bits at `base` can be handed out: it lies inside the
/// bitmap, starts at a multiple of `align` and is free throughout.
pub open spec fn run_fits(free: Set<int>, base: int, len: int, align: int) -> bool {
    &&& 0 <= base
    &&& base + len <= BITMAP_CAP
    &&& base % align == 0
    &&& set_int_range(base, base + len).subset_of(free)
}

/// `BitAlloc::DEFAULT`: a bitmap in which no bit is free.
#[verifier::external_body]
pub(crate) fn bitmap_new() -> (bitmap: PageBitmap)
    ensures
        free_bits(bitmap) == Set::<int>::empty(),
{
    PageBitmap { inner: BitAlloc1M::DEFAULT }
}

/// `BitAlloc::insert`: marks every bit of `start..end` free. The outside
/// function fails on an empty range and on one that leaves the bitmap.
#[verifier::external_body]
pub(crate) fn bitmap_insert(bitmap: &mut PageBitmap, start: usize, end: usize)
    requires
        start < end <= BITMAP_CAP,
    ensures
        free_bits(*final(bitmap)) == free_bits(*old(bitmap)).union(
            set_int_range(start as int, end as int),
        ),
{
    bitmap.inner.insert(start..end)
}

/// `BitAlloc::alloc`: takes the lowest free bit, if there is one.
#[verifier::external_body]
pub(crate) fn bitmap_alloc(bitmap: &mut PageBitmap) -> (bit: Option<usize>)
    ensures
        match bit {
            Some(i) => {
                &&& i < BITMAP_CAP
                &&& free_bits(*old(bitmap)).contains(i as int)
                &&& forall|j: int| 0 <= j < i ==> !#[trigger] free_bits(*old(bitmap)).contains(j)
                &&& free_bits(*final(bitmap)) == free_bits(*old(bitmap)).remove(i as int)
            },
            None => {
                &&& forall|j: int|
                    0 <= j < BITMAP_CAP ==> !#[trigger] free_bits(*old(bitmap)).contains(j)
                &&& free_bits(*final(bitmap)) == free_bits(*old(bitmap))
            },
        },
{
    bitmap.inner.alloc()
}

/// `BitAlloc::alloc_contiguous`: scans upward from bit zero for the first
/// aligned run of `size` free bits and takes it. The outside function gives
/// up at once when the alignment exceeds the bitmap's capacity.
#[verifier::external_body]
pub(crate) fn bitmap_alloc_contiguous(
    bitmap: &mut PageBitmap,
    size: usize,
    align_log2: usize,
) -> (first: Option<usize>)
    requires
        size >= 1,
        align_log2 < usize::BITS,
    ensures
        match first {
            Some(base) => {
                &&& pow2(align_log2 as nat) <= BITMAP_CAP
                &&& run_fits(free_bits(*old(bitmap)), base as int, size as int, pow2(align_log2 as nat) as int)
                &&& forall|b: int|
                    0 <= b < base ==> !#[trigger] run_fits(
                        free_bits(*old(bitmap)),
                        b,
                        size as int,
                        pow2(align_log2 as nat) as int,
                    )
                &&& free_bits(*final(bitmap)) == free_bits(*old(bitmap)).difference(
                    set_int_range(base as int, base + size),
                )
            },
            None => {
                &&& pow2(align_log2 as nat) > BITMAP_CAP || forall|b: int|
                    !#[trigger] run_fits(
                        free_bits(*old(bitmap)),
                        b,
                        size as int,
                        pow2(align_log2 as nat) as int,
                    )
                &&& free_bits(*final(bitmap)) == free_bits(*old(bitmap))
            },
        },
{
    bitmap.inner.alloc_contiguous(size, align_log2)
}

/// `BitAlloc::dealloc`: marks one taken bit free. The outside function fails
/// on a bit that is free already and on one outside the bitmap.
#[verifier::external_body]
pub(crate) fn bitmap_dealloc(bitmap: &mut PageBitmap, key: usize)
    requires
        key < BITMAP_CAP,
        !free_bits(*old(bitmap)).contains(key as int),
    ensures
        free_bits(*final(bitmap)) == free_bits(*old(bitmap)).insert(key as int),
{
    bitmap.inner.dealloc(key)
}

/// `BitAlloc::test`: whether bit `key` is free.
#[verifier::external_body]
pub(crate) fn bitmap_test(bitmap: &PageBitmap, key: usize) -> (free: bool)
    requires
        key < BITMAP_CAP,
    ensures
        free == free_bits(*bitmap).contains(key as int),
{
    bitmap.inner.test(key)
}

} // verus!
