//! The early allocator: pages and bytes served from one extent of memory.
//!
//! Pages are tracked by a bitmap and handed out from the top of the extent
//! downward. Bytes come from a pool over the same extent, which keeps its
//! own books: nothing stops the two from handing out the same memory when
//! both are used heavily.
//!
//! The pool works on raw memory. Giving it its memory and returning a block
//! to it are calls that only unsafe code can make; the caller makes them on
//! [`EarlyAllocator::byte_pool`], and the allocator keeps the accounts.

use crate::allocator::align_down;
use crate::allocator::align_down_spec;
use crate::allocator::align_up;
use crate::allocator::align_up_spec;
use crate::allocator::bitmap::bitmap_alloc;
use crate::allocator::bitmap::bitmap_alloc_contiguous;
use crate::allocator::bitmap::bitmap_dealloc;
use crate::allocator::bitmap::bitmap_insert;
use crate::allocator::bitmap::bitmap_new;
use crate::allocator::bitmap::bitmap_test;
use crate::allocator::bitmap::free_bits;
use crate::allocator::bitmap::run_fits;
use crate::allocator::bitmap::PageBitmap;
use crate::allocator::bitmap::BITMAP_CAP;
use crate::allocator::pool::pool_allocate;
use crate::allocator::pool::pool_new;
use crate::allocator::pool::valid_layout;
use crate::allocator::pool::BytePool;
use crate::allocator::lemma_align_bounds;
use crate::allocator::lemma_pow2_positive;
use crate::allocator::log2_exact;
use crate::allocator::AllocError;
use crate::allocator::AllocResult;
use vstd::arithmetic::power2::is_pow2;
use vstd::prelude::*;
use vstd::set_lib::lemma_int_range;
use vstd::set_lib::lemma_len_subset;
use vstd::set_lib::set_int_range;

verus! {

/// What an [`EarlyAllocator`] holds, as mathematical values.
#[verifier::ext_equal]
pub struct EarlyAllocatorView {
    /// First byte of the extent.
    pub start: nat,
    /// One past the last byte of the extent.
    pub end: nat,
    /// Number of pages in the extent.
    pub total_pages: nat,
    /// The used-page counter.
    pub used_pages: nat,
    /// Indices of the pages that the bitmap holds as free.
    pub free_pages: Set<int>,
    /// Number of bytes registered with the byte pool.
    pub total_bytes: nat,
    /// The used-byte counter.
    pub used_bytes: nat,
}

impl EarlyAllocatorView {
    /// The state of an allocator that has not been given an extent.
    pub open spec fn empty() -> EarlyAllocatorView {
        EarlyAllocatorView {
            start: 0,
            end: 0,
            total_pages: 0,
            used_pages: 0,
            free_pages: Set::empty(),
            total_bytes: 0,
            used_bytes: 0,
        }
    }

    /// The state right after `init(start, size)`: the extent is trimmed to
    /// page boundaries and every page in it is free.
    pub open spec fn initial(page_size: nat, start: nat, size: nat) -> EarlyAllocatorView {
        let first = align_up_spec(start as int, page_size as int);
        let last = align_down_spec((start + size) as int, page_size as int);
        let total = (last - first) / (page_size as int);
        EarlyAllocatorView {
            start: first as nat,
            end: last as nat,
            total_pages: total as nat,
            used_pages: 0,
            free_pages: set_int_range(0, total),
            total_bytes: size,
            used_bytes: 0,
        }
    }

    /// The invariant of the page domain: the extent is made of whole pages,
    /// the bitmap covers it, only pages of the extent are free, and the
    /// counter never claims more pages than are taken.
    pub open spec fn wf(self, page_size: nat) -> bool {
        &&& is_pow2(page_size as int)
        &&& self.start % page_size == 0
        &&& self.start + self.total_pages * page_size == self.end
        &&& self.total_pages <= BITMAP_CAP
        &&& self.free_pages.subset_of(set_int_range(0, self.total_pages as int))
        &&& self.used_pages + self.free_pages.len() <= self.total_pages
    }

    /// The counter and the bitmap agree: every page is either free or counted
    /// as used.
    pub open spec fn consistent(self) -> bool {
        self.used_pages + self.free_pages.len() == self.total_pages
    }

    /// Address of the page with bitmap index `index`: pages are numbered from
    /// the top of the extent downward.
    pub open spec fn page_addr(self, page_size: nat, index: int) -> int {
        self.end - (index + 1) * page_size
    }

    /// Bitmap index that `dealloc_pages` derives from an address.
    pub open spec fn page_index(self, page_size: nat, addr: int) -> int {
        (self.end - addr) / (page_size as int)
    }
}

/// Which `(start, size)` describe an extent that `init` can take: the sum
/// is an address, at least zero whole pages lie between the rounded ends,
/// and the bitmap has a bit for each of them.
pub open spec fn valid_extent(page_size: nat, start: nat, size: nat) -> bool {
    let first = align_up_spec(start as int, page_size as int);
    let last = align_down_spec((start + size) as int, page_size as int);
    &&& start + size <= usize::MAX
    &&& first <= last
    &&& (last - first) / (page_size as int) <= BITMAP_CAP
}

/// Which page requests are well-formed: the alignment is a whole number of
/// pages, that number is a power of two, and at least one page is asked for.
pub open spec fn valid_page_request(page_size: nat, num_pages: nat, align_pow2: nat) -> bool {
    &&& align_pow2 % page_size == 0
    &&& is_pow2((align_pow2 / page_size) as int)
    &&& num_pages >= 1
}

/// The alignment, in pages, that a request is held to. A single page is
/// taken wherever one is free.
pub open spec fn page_align(page_size: nat, num_pages: nat, align_pow2: nat) -> int {
    if num_pages == 1 {
        1
    } else {
        (align_pow2 / page_size) as int
    }
}

/// Some run of `len` free pages at a multiple of `align` exists, and the
/// bitmap looks for it: it gives up on an alignment beyond its capacity.
pub open spec fn has_fit(free: Set<int>, len: int, align: int) -> bool {
    &&& align <= BITMAP_CAP
    &&& exists|base: int| run_fits(free, base, len, align)
}

/// `base` is the lowest index at which a run of `len` pages fits.
pub open spec fn is_first_fit(free: Set<int>, base: int, len: int, align: int) -> bool {
    &&& run_fits(free, base, len, align)
    &&& forall|b: int| 0 <= b < base ==> !#[trigger] run_fits(free, b, len, align)
}

/// What `alloc_pages(num_pages, align_pow2)` returns and leaves behind.
pub open spec fn alloc_pages_post(
    pre: EarlyAllocatorView,
    page_size: nat,
    num_pages: nat,
    align_pow2: nat,
    r: AllocResult<usize>,
    post: EarlyAllocatorView,
) -> bool {
    let align = page_align(page_size, num_pages, align_pow2);
    match r {
        Ok(addr) => {
            let index = pre.page_index(page_size, addr as int) - 1;
            &&& valid_page_request(page_size, num_pages, align_pow2)
            &&& addr == pre.page_addr(page_size, index)
            &&& is_first_fit(pre.free_pages, index, num_pages as int, align)
            &&& post == EarlyAllocatorView {
                used_pages: pre.used_pages + num_pages,
                free_pages: pre.free_pages.difference(set_int_range(index, index + num_pages)),
                ..pre
            }
        },
        Err(AllocError::InvalidParam) => {
            &&& !valid_page_request(page_size, num_pages, align_pow2)
            &&& post == pre
        },
        Err(AllocError::NoMemory) => {
            &&& valid_page_request(page_size, num_pages, align_pow2)
            &&& !has_fit(pre.free_pages, num_pages as int, align)
            &&& post == pre
        },
        Err(AllocError::Unsupported) => false,
    }
}

/// Which releases `dealloc_pages(addr, num_pages)` accepts: the address is
/// not above the extent, and the counter can be lowered by `num_pages`.
/// Every address that `alloc_pages` hands out can be released with the
/// count it was asked with.
pub open spec fn dealloc_pages_pre(
    pre: EarlyAllocatorView,
    page_size: nat,
    addr: nat,
    num_pages: nat,
) -> bool {
    &&& addr <= pre.end
    &&& num_pages <= pre.used_pages
}

/// The pages that `dealloc_pages(addr, num_pages)` sets free: those of the
/// run of `num_pages` indices from the index derived from `addr` that are
/// pages of the extent. The bitmap has a bit for each page of the extent; an
/// index beyond them names no page.
pub open spec fn released_pages(
    pre: EarlyAllocatorView,
    page_size: nat,
    addr: nat,
    num_pages: nat,
) -> Set<int> {
    let first = pre.page_index(page_size, addr as int);
    set_int_range(first, first + num_pages).intersect(set_int_range(0, pre.total_pages as int))
}

/// The state after `dealloc_pages(addr, num_pages)`: the pages that the run
/// names are free, and the counter is lower by `num_pages`, whatever the
/// pages were before and however many of them there are.
pub open spec fn dealloc_pages_post(
    pre: EarlyAllocatorView,
    page_size: nat,
    addr: nat,
    num_pages: nat,
) -> EarlyAllocatorView {
    EarlyAllocatorView {
        used_pages: (pre.used_pages - num_pages) as nat,
        free_pages: pre.free_pages.union(released_pages(pre, page_size, addr, num_pages)),
        ..pre
    }
}

/// The state after the byte pool served a request of `size` bytes.
pub open spec fn alloc_bytes_post(pre: EarlyAllocatorView, size: nat) -> EarlyAllocatorView {
    EarlyAllocatorView { used_bytes: pre.used_bytes + size, ..pre }
}

/// The state after a block of `size` bytes went back to the byte pool.
pub open spec fn dealloc_post(pre: EarlyAllocatorView, size: nat) -> EarlyAllocatorView {
    EarlyAllocatorView { used_bytes: (pre.used_bytes - size) as nat, ..pre }
}

/// One step in the life of the byte domain.
pub enum ByteEvent {
    /// The pool served a request of this many bytes.
    Served(nat),
    /// The block at this position among the outstanding ones went back,
    /// released with the size it was asked with.
    Released(nat),
}

/// The sizes of the blocks that are outstanding after `trace`, oldest first.
pub open spec fn outstanding(trace: Seq<ByteEvent>) -> Seq<nat>
    decreases trace.len(),
{
    if trace.len() == 0 {
        Seq::empty()
    } else {
        let before = outstanding(trace.drop_last());
        match trace.last() {
            ByteEvent::Served(size) => before.push(size),
            ByteEvent::Released(at) => before.remove(at as int),
        }
    }
}

/// Every release in `trace` names a block that is outstanding when it
/// happens.
pub open spec fn releases_outstanding(trace: Seq<ByteEvent>) -> bool
    decreases trace.len(),
{
    if trace.len() == 0 {
        true
    } else {
        &&& releases_outstanding(trace.drop_last())
        &&& trace.last() matches ByteEvent::Released(at) ==> at < outstanding(
            trace.drop_last(),
        ).len()
    }
}

/// The state that `trace` leads to from `pre`, each step accounted for as
/// `alloc_bytes` and `dealloc` do.
pub open spec fn after_byte_trace(
    pre: EarlyAllocatorView,
    trace: Seq<ByteEvent>,
) -> EarlyAllocatorView
    decreases trace.len(),
{
    if trace.len() == 0 {
        pre
    } else {
        let before = after_byte_trace(pre, trace.drop_last());
        match trace.last() {
            ByteEvent::Served(size) => alloc_bytes_post(before, size),
            ByteEvent::Released(at) => dealloc_post(
                before,
                outstanding(trace.drop_last())[at as int],
            ),
        }
    }
}

/// The sum of the sizes in `sizes`.
pub open spec fn total_size(sizes: Seq<nat>) -> nat
    decreases sizes.len(),
{
    if sizes.len() == 0 {
        0
    } else {
        total_size(sizes.drop_last()) + sizes.last()
    }
}

/// Taking one size out of a sequence lowers the sum by that size.
proof fn lemma_total_size_remove(sizes: Seq<nat>, at: int)
    requires
        0 <= at < sizes.len(),
    ensures
        total_size(sizes.remove(at)) + sizes[at] == total_size(sizes),
    decreases sizes.len(),
{
    if at == sizes.len() - 1 {
        assert(sizes.remove(at) =~= sizes.drop_last());
    } else {
        lemma_total_size_remove(sizes.drop_last(), at);
        assert(sizes.remove(at).drop_last() =~= sizes.drop_last().remove(at));
        assert(sizes.remove(at).last() == sizes.last());
    }
}

/// Rounding up gives the least boundary that is not below the position.
proof fn lemma_align_up_least(pos: int, boundary: int, page_size: int)
    requires
        page_size > 0,
        0 <= pos <= boundary,
        boundary % page_size == 0,
    ensures
        align_up_spec(pos, page_size) <= boundary,
{
    lemma_align_bounds(pos, page_size);
    let up = align_up_spec(pos, page_size);
    if up > boundary {
        lemma_whole_pages(boundary, up, page_size);
        let n = (up - boundary) / page_size;
        assert(n >= 1) by (nonlinear_arith)
            requires
                boundary + n * page_size == up,
                up > boundary,
                page_size > 0,
        ;
        assert(n * page_size >= page_size) by (nonlinear_arith)
            requires
                n >= 1,
                page_size > 0,
        ;
    }
}

/// Between two page boundaries lies a whole number of pages.
proof fn lemma_whole_pages(first: int, last: int, page_size: int)
    requires
        page_size > 0,
        first % page_size == 0,
        last % page_size == 0,
        0 <= first <= last,
    ensures
        first + ((last - first) / page_size) * page_size == last,
        (last - first) / page_size >= 0,
{
    vstd::arithmetic::div_mod::lemma_fundamental_div_mod(first, page_size);
    vstd::arithmetic::div_mod::lemma_fundamental_div_mod(last, page_size);
    let a = first / page_size;
    let b = last / page_size;
    assert(last - first == page_size * (b - a)) by (nonlinear_arith)
        requires
            first == page_size * a,
            last == page_size * b,
    ;
    vstd::arithmetic::div_mod::lemma_div_multiples_vanish(b - a, page_size);
    assert(page_size * (b - a) == (b - a) * page_size) by (nonlinear_arith);
    assert(b - a >= 0) by (nonlinear_arith)
        requires
            page_size * (b - a) >= 0,
            page_size > 0,
    ;
}

/// Taking the lowest free bit is the first fit of a one-page request.
proof fn lemma_single_page_fit(free: Set<int>, bit: Option<usize>)
    requires
        match bit {
            Some(i) => {
                &&& i < BITMAP_CAP
                &&& free.contains(i as int)
                &&& forall|j: int| 0 <= j < i ==> !#[trigger] free.contains(j)
            },
            None => forall|j: int| 0 <= j < BITMAP_CAP ==> !#[trigger] free.contains(j),
        },
    ensures
        match bit {
            Some(i) => is_first_fit(free, i as int, 1, 1),
            None => !has_fit(free, 1, 1),
        },
{
    match bit {
        Some(i) => {
            assert forall|b: int| 0 <= b < i implies !#[trigger] run_fits(free, b, 1, 1) by {
                if run_fits(free, b, 1, 1) {
                    assert(set_int_range(b, b + 1).contains(b));
                    assert(free.contains(b));
                }
            }
        },
        None => {
            assert forall|b: int| !#[trigger] run_fits(free, b, 1, 1) by {
                if run_fits(free, b, 1, 1) {
                    assert(set_int_range(b, b + 1).contains(b));
                    assert(free.contains(b));
                }
            }
        },
    }
}

/// A run that fits lies inside the extent, its pages have addresses inside
/// the extent, and taking it keeps the invariant.
proof fn lemma_run_in_extent(
    pre: EarlyAllocatorView,
    page_size: nat,
    index: int,
    len: int,
    align: int,
)
    requires
        pre.wf(page_size),
        len >= 1,
        run_fits(pre.free_pages, index, len, align),
    ensures
        index + len <= pre.total_pages,
        (index + 1) * page_size <= pre.end,
        pre.used_pages + len <= pre.total_pages,
        pre.free_pages.finite(),
        pre.free_pages.difference(set_int_range(index, index + len)).len() == pre.free_pages.len()
            - len,
        pre.free_pages.difference(set_int_range(index, index + len)).subset_of(
            set_int_range(0, pre.total_pages as int),
        ),
{
    let run = set_int_range(index, index + len);
    let all = set_int_range(0, pre.total_pages as int);
    assert(run.contains(index + len - 1));
    assert(pre.free_pages.contains(index + len - 1));
    assert(all.contains(index + len - 1));
    lemma_int_range(0, pre.total_pages as int);
    lemma_int_range(index, index + len);
    lemma_len_subset(pre.free_pages, all);
    vstd::set_lib::lemma_set_difference_len(pre.free_pages, run);
    assert(pre.free_pages.intersect(run) =~= run);
    assert((index + 1) * page_size <= pre.total_pages * page_size) by (nonlinear_arith)
        requires
            index + 1 <= pre.total_pages,
            page_size >= 0,
    ;
}

/// The index that an address gives back is one above the index that the
/// address was made from.
proof fn lemma_page_addr_index(pre: EarlyAllocatorView, page_size: nat, index: int)
    requires
        page_size > 0,
        index >= 0,
    ensures
        pre.page_index(page_size, pre.page_addr(page_size, index)) == index + 1,
{
    vstd::arithmetic::div_mod::lemma_div_multiples_vanish(index + 1, page_size as int);
    assert((index + 1) * page_size == page_size * (index + 1)) by (nonlinear_arith);
    assert(pre.end - (pre.end - (index + 1) * page_size) == (index + 1) * page_size);
}

/// An allocator for the first stage of boot. `PAGE_SIZE` must be a power of
/// two.
pub struct EarlyAllocator<const PAGE_SIZE: usize> {
    start: usize,
    end: usize,
    total_pages: usize,
    used_pages: usize,
    pages_inner: PageBitmap,
    total_bytes: usize,
    used_bytes: usize,
    bytes_inner: BytePool,
}

impl<const PAGE_SIZE: usize> View for EarlyAllocator<PAGE_SIZE> {
    type V = EarlyAllocatorView;

    closed spec fn view(&self) -> EarlyAllocatorView {
        EarlyAllocatorView {
            start: self.start as nat,
            end: self.end as nat,
            total_pages: self.total_pages as nat,
            used_pages: self.used_pages as nat,
            free_pages: free_bits(self.pages_inner),
            total_bytes: self.total_bytes as nat,
            used_bytes: self.used_bytes as nat,
        }
    }
}

impl<const PAGE_SIZE: usize> EarlyAllocator<PAGE_SIZE> {
    /// The allocator's invariant, see [`EarlyAllocatorView::wf`].
    pub open spec fn wf(&self) -> bool {
        self@.wf(PAGE_SIZE as nat)
    }

    /// Creates an allocator without an extent: it has no page to give.
    pub fn new() -> (r: Self)
        ensures
            r@ == EarlyAllocatorView::empty(),
            is_pow2(PAGE_SIZE as int) ==> r.wf(),
    {
        let r = Self {
            start: 0,
            end: 0,
            total_pages: 0,
            used_pages: 0,
            pages_inner: bitmap_new(),
            total_bytes: 0,
            used_bytes: 0,
            bytes_inner: pool_new(),
        };
        proof {
            assert(r@.free_pages.len() == 0);
            assert(r@ =~= EarlyAllocatorView::empty());
            if is_pow2(PAGE_SIZE as int) {
                lemma_pow2_positive(PAGE_SIZE as int);
                assert(0nat % (PAGE_SIZE as nat) == 0) by (nonlinear_arith)
                    requires
                        PAGE_SIZE > 0,
                ;
            }
        }
        r
    }

    /// Whether `init(start, size)` may be called: the page size is a power of
    /// two and the extent is valid, see [`valid_extent`].
    pub fn can_init(start: usize, size: usize) -> (r: bool)
        ensures
            r == (is_pow2(PAGE_SIZE as int) && valid_extent(
                PAGE_SIZE as nat,
                start as nat,
                size as nat,
            )),
    {
        if log2_exact(PAGE_SIZE).is_none() {
            return false;
        }
        let sum: usize = match start.checked_add(size) {
            Some(sum) => sum,
            None => {
                return false;
            },
        };
        proof {
            lemma_pow2_positive(PAGE_SIZE as int);
            lemma_align_bounds(start as int, PAGE_SIZE as int);
            lemma_align_bounds(sum as int, PAGE_SIZE as int);
        }
        let end: usize = align_down(sum, PAGE_SIZE);
        if start > end {
            return false;
        }
        proof {
            lemma_align_up_least(start as int, end as int, PAGE_SIZE as int);
        }
        let first: usize = align_up(start, PAGE_SIZE);
        (end - first) / PAGE_SIZE <= BITMAP_CAP
    }

    /// Takes the extent of `size` bytes at `start`: rounds its start up and
    /// its end down to page boundaries, marks every page in between free,
    /// resets both counters and starts with an empty byte pool. The caller
    /// then gives the pool its memory: `size` bytes from the rounded start.
    pub fn init(&mut self, start: usize, size: usize)
        requires
            is_pow2(PAGE_SIZE as int),
            valid_extent(PAGE_SIZE as nat, start as nat, size as nat),
        ensures
            final(self)@ == EarlyAllocatorView::initial(PAGE_SIZE as nat, start as nat, size as nat),
            final(self)@.total_pages == (align_down_spec(start + size, PAGE_SIZE as int)
                - align_up_spec(start as int, PAGE_SIZE as int)) / (PAGE_SIZE as int),
            final(self).wf(),
            final(self)@.consistent(),
    {
        proof {
            lemma_pow2_positive(PAGE_SIZE as int);
            lemma_align_bounds(start as int, PAGE_SIZE as int);
            lemma_align_bounds(start + size, PAGE_SIZE as int);
        }
        let end: usize = align_down(start + size, PAGE_SIZE);
        let first: usize = align_up(start, PAGE_SIZE);
        let total: usize = (end - first) / PAGE_SIZE;
        proof {
            lemma_whole_pages(first as int, end as int, PAGE_SIZE as int);
            lemma_int_range(0, total as int);
        }
        self.start = first;
        self.end = end;
        self.total_pages = total;
        self.used_pages = 0;
        self.pages_inner = bitmap_new();
        if total > 0 {
            bitmap_insert(&mut self.pages_inner, 0, total);
        }
        self.total_bytes = size;
        self.used_bytes = 0;
        self.bytes_inner = pool_new();
        proof {
            assert(self@.free_pages =~= set_int_range(0, total as int));
            assert(self@ =~= EarlyAllocatorView::initial(
                PAGE_SIZE as nat,
                start as nat,
                size as nat,
            ));
        }
    }

    /// Hands out `num_pages` pages whose bitmap index is a multiple of
    /// `align_pow2 / PAGE_SIZE`, and returns the address of the page with the
    /// lowest index of the run. A single page is taken at the lowest free
    /// index, whatever the alignment; a longer run at the lowest index where
    /// it fits.
    ///
    /// Fails with `InvalidParam` when `align_pow2` is no multiple of the page
    /// size, when it is not a power of two in pages, or when `num_pages` is
    /// zero; with `NoMemory` when no run fits.
    pub fn alloc_pages(&mut self, num_pages: usize, align_pow2: usize) -> (r: AllocResult<usize>)
        requires
            old(self).wf(),
        ensures
            final(self).wf(),
            alloc_pages_post(
                old(self)@,
                PAGE_SIZE as nat,
                num_pages as nat,
                align_pow2 as nat,
                r,
                final(self)@,
            ),
            align_pow2 % PAGE_SIZE != 0 ==> r == Err::<usize, AllocError>(AllocError::InvalidParam),
            old(self)@.consistent() ==> final(self)@.consistent(),
            r matches Ok(addr) ==> dealloc_pages_pre(
                final(self)@,
                PAGE_SIZE as nat,
                addr as nat,
                num_pages as nat,
            ),
            final(self).pool() == old(self).pool(),
    {
        proof {
            lemma_pow2_positive(PAGE_SIZE as int);
        }
        if align_pow2 % PAGE_SIZE != 0 {
            return Err(AllocError::InvalidParam);
        }
        let align_pages: usize = align_pow2 / PAGE_SIZE;
        let align_log2: usize = match log2_exact(align_pages) {
            Some(k) => k as usize,
            None => {
                return Err(AllocError::InvalidParam);
            },
        };
        if num_pages == 0 {
            return Err(AllocError::InvalidParam);
        }
        let ghost pre = self@;
        let ghost align = page_align(PAGE_SIZE as nat, num_pages as nat, align_pow2 as nat);
        let found: Option<usize> = if num_pages == 1 {
            let bit = bitmap_alloc(&mut self.pages_inner);
            proof {
                lemma_single_page_fit(pre.free_pages, bit);
            }
            bit
        } else {
            bitmap_alloc_contiguous(&mut self.pages_inner, num_pages, align_log2)
        };
        match found {
            None => {
                proof {
                    assert(self@ =~= pre);
                }
                Err(AllocError::NoMemory)
            },
            Some(index) => {
                proof {
                    lemma_run_in_extent(pre, PAGE_SIZE as nat, index as int, num_pages as int, align);
                }
                self.used_pages = self.used_pages + num_pages;
                let addr: usize = self.end - (index + 1) * PAGE_SIZE;
                proof {
                    lemma_page_addr_index(pre, PAGE_SIZE as nat, index as int);
                    assert(self@ =~= EarlyAllocatorView {
                        used_pages: pre.used_pages + num_pages as nat,
                        free_pages: pre.free_pages.difference(
                            set_int_range(index as int, index + num_pages),
                        ),
                        ..pre
                    });
                }
                Ok(addr)
            },
        }
    }

    /// Releases the run of `num_pages` pages that `pos` names: the bitmap
    /// index is `(end - pos) / PAGE_SIZE`, every page of the run becomes free,
    /// and the used-page counter drops by `num_pages`. Where the run reaches
    /// beyond the last page of the extent, the pages that there are become
    /// free, and the counter drops by `num_pages` all the same.
    ///
    /// Nothing is compared with what was handed out. A caller that passes
    /// another count than it was given leaves the counter and the bitmap in
    /// disagreement.
    pub fn dealloc_pages(&mut self, pos: usize, num_pages: usize)
        requires
            old(self).wf(),
            dealloc_pages_pre(old(self)@, PAGE_SIZE as nat, pos as nat, num_pages as nat),
        ensures
            final(self).wf(),
            final(self)@ == dealloc_pages_post(
                old(self)@,
                PAGE_SIZE as nat,
                pos as nat,
                num_pages as nat,
            ),
            final(self).pool() == old(self).pool(),
    {
        proof {
            lemma_pow2_positive(PAGE_SIZE as int);
            lemma_int_range(0, self@.total_pages as int);
            lemma_len_subset(self@.free_pages, set_int_range(0, self@.total_pages as int));
        }
        let ghost pre = self@;
        let ghost all = set_int_range(0, pre.total_pages as int);
        self.used_pages = self.used_pages - num_pages;
        let first: usize = (self.end - pos) / PAGE_SIZE;
        if first >= self.total_pages {
            proof {
                assert(released_pages(pre, PAGE_SIZE as nat, pos as nat, num_pages as nat)
                    =~= Set::<int>::empty());
                assert(self@.free_pages =~= pre.free_pages.union(Set::<int>::empty()));
            }
            return ;
        }
        let room: usize = self.total_pages - first;
        let count: usize = if num_pages < room {
            num_pages
        } else {
            room
        };
        let mut done: usize = 0;
        while done < count
            invariant
                done <= count <= num_pages,
                first + count <= pre.total_pages <= BITMAP_CAP,
                self@ == (EarlyAllocatorView {
                    used_pages: (pre.used_pages - num_pages) as nat,
                    free_pages: pre.free_pages.union(set_int_range(first as int, first + done)),
                    ..pre
                }),
                self.pool() == old(self).pool(),
                pre.free_pages.finite(),
                self@.free_pages.finite(),
                self@.free_pages.len() <= pre.free_pages.len() + done,
                pre.free_pages.subset_of(set_int_range(0, pre.total_pages as int)),
            decreases count - done,
        {
            let ghost before = self@.free_pages;
            let key: usize = first + done;
            if !bitmap_test(&self.pages_inner, key) {
                bitmap_dealloc(&mut self.pages_inner, key);
            }
            done = done + 1;
            proof {
                assert(self@.free_pages =~= before.insert(key as int));
                assert(before.insert(key as int) =~= pre.free_pages.union(
                    set_int_range(first as int, first + done),
                ));
            }
        }
        proof {
            assert(set_int_range(first as int, first + count) =~= released_pages(
                pre,
                PAGE_SIZE as nat,
                pos as nat,
                num_pages as nat,
            ));
            assert(self@.free_pages.subset_of(all));
        }
    }

    /// Whether `dealloc_pages(pos, num_pages)` may be called: see
    /// [`dealloc_pages_pre`].
    pub fn can_dealloc_pages(&self, pos: usize, num_pages: usize) -> (r: bool)
        ensures
            r == dealloc_pages_pre(self@, PAGE_SIZE as nat, pos as nat, num_pages as nat),
    {
        pos <= self.end && num_pages <= self.used_pages
    }

    /// Asks the byte pool for a block of `size` bytes at a multiple of
    /// `align`, and counts the bytes of a block found: see
    /// [`Self::account_block`] for what is returned on either answer of the
    /// pool.
    ///
    /// Fails with `InvalidParam` where `size` and `align` describe no block,
    /// see [`valid_layout`], and with `NoMemory` where the counter cannot
    /// take `size` more bytes: so much no pool holds. Neither asks anything
    /// of the pool.
    pub fn alloc_bytes(&mut self, size: usize, align: usize) -> (r: AllocResult<usize>)
        ensures
            !valid_layout(size as nat, align as nat) <==> r == Err::<usize, AllocError>(
                AllocError::InvalidParam,
            ),
            match r {
                Ok(addr) => addr != 0 && addr % align == 0 && final(self)@ == alloc_bytes_post(
                    old(self)@,
                    size as nat,
                ),
                Err(_) => final(self)@ == old(self)@,
            },
            r is Err && valid_layout(size as nat, align as nat) ==> r == Err::<usize, AllocError>(
                AllocError::NoMemory,
            ),
            old(self)@.used_bytes + size > usize::MAX ==> r is Err,
            !valid_layout(size as nat, align as nat) || old(self)@.used_bytes + size > usize::MAX
                ==> final(self).pool() == old(self).pool(),
            old(self).wf() ==> final(self).wf(),
    {
        if log2_exact(align).is_none() {
            return Err(AllocError::InvalidParam);
        }
        proof {
            lemma_pow2_positive(align as int);
        }
        let most: usize = isize::MAX as usize;
        if align - 1 > most || size > most - (align - 1) {
            return Err(AllocError::InvalidParam);
        }
        if size > usize::MAX - self.used_bytes {
            return Err(AllocError::NoMemory);
        }
        let block: Option<usize> = pool_allocate(&mut self.bytes_inner, size, align);
        self.account_block(size, block)
    }

    /// Accounts for a request of `size` bytes that the byte pool answered
    /// with `block`: the address of the block it found, or `None` when it
    /// found none. A block found is counted and passed on; none found is
    /// `NoMemory`.
    pub fn account_block(&mut self, size: usize, block: Option<usize>) -> (r: AllocResult<usize>)
        requires
            block.is_some() ==> old(self)@.used_bytes + size <= usize::MAX,
        ensures
            match block {
                Some(addr) => r == Ok::<usize, AllocError>(addr) && final(self)@
                    == alloc_bytes_post(old(self)@, size as nat),
                None => r == Err::<usize, AllocError>(AllocError::NoMemory) && final(self)@ == old(
                    self,
                )@,
            },
            final(self).pool() == old(self).pool(),
            old(self).wf() ==> final(self).wf(),
    {
        match block {
            Some(addr) => {
                self.used_bytes = self.used_bytes + size;
                Ok(addr)
            },
            None => Err(AllocError::NoMemory),
        }
    }

    /// The allocator's own byte pool, for what only unsafe code can ask of
    /// it: to take the extent's memory after `init`, and a block back before
    /// `dealloc`. What the caller leaves in it is the pool from then on.
    pub fn byte_pool(&mut self) -> (pool: &mut BytePool)
        ensures
            *pool == old(self).pool(),
            final(self).pool() == *final(pool),
            final(self)@ == old(self)@,
    {
        &mut self.bytes_inner
    }

    /// The byte pool that the allocator holds. What is in it is not
    /// modelled; the name tells one state of the pool from another.
    pub closed spec fn pool(&self) -> BytePool {
        self.bytes_inner
    }

    /// Accounts for a block of `size` bytes that the caller has returned to
    /// the byte pool: the used-byte counter drops by `size`, which must be
    /// the size the block was asked with.
    pub fn dealloc(&mut self, size: usize)
        requires
            size <= old(self)@.used_bytes,
        ensures
            final(self)@ == dealloc_post(old(self)@, size as nat),
            final(self).pool() == old(self).pool(),
            old(self).wf() ==> final(self).wf(),
    {
        self.used_bytes = self.used_bytes - size;
    }

    /// Adding a second extent is not offered.
    pub fn add_memory(&mut self, start: usize, size: usize) -> (r: AllocResult<()>)
        ensures
            r == Err::<(), AllocError>(AllocError::Unsupported),
            final(self)@ == old(self)@,
            final(self).pool() == old(self).pool(),
    {
        Err(AllocError::Unsupported)
    }

    /// The page total is not offered as a query.
    pub fn total_pages(&self) -> (r: AllocResult<usize>)
        ensures
            r == Err::<usize, AllocError>(AllocError::Unsupported),
    {
        Err(AllocError::Unsupported)
    }

    /// The number of free pages is not offered as a query.
    pub fn available_pages(&self) -> (r: AllocResult<usize>)
        ensures
            r == Err::<usize, AllocError>(AllocError::Unsupported),
    {
        Err(AllocError::Unsupported)
    }

    /// The byte total is not offered as a query.
    pub fn total_bytes(&self) -> (r: AllocResult<usize>)
        ensures
            r == Err::<usize, AllocError>(AllocError::Unsupported),
    {
        Err(AllocError::Unsupported)
    }

    /// The number of free bytes is not offered as a query.
    pub fn available_bytes(&self) -> (r: AllocResult<usize>)
        ensures
            r == Err::<usize, AllocError>(AllocError::Unsupported),
    {
        Err(AllocError::Unsupported)
    }

    /// Number of pages counted as used.
    pub fn used_pages(&self) -> (r: usize)
        ensures
            r == self@.used_pages,
    {
        self.used_pages
    }

    /// Number of bytes counted as used.
    pub fn used_bytes(&self) -> (r: usize)
        ensures
            r == self@.used_bytes,
    {
        self.used_bytes
    }
}

/// Whatever `alloc_pages` hands out can be released at the address
/// returned with the count asked for, and that leaves the used-page counter
/// where it was before the pages were taken.
pub proof fn law_page_round_trip(
    page_size: nat,
    pre: EarlyAllocatorView,
    num_pages: nat,
    align_pow2: nat,
    addr: usize,
    mid: EarlyAllocatorView,
)
    requires
        pre.wf(page_size),
        alloc_pages_post(pre, page_size, num_pages, align_pow2, Ok(addr), mid),
    ensures
        mid.wf(page_size),
        dealloc_pages_pre(mid, page_size, addr as nat, num_pages),
        dealloc_pages_post(mid, page_size, addr as nat, num_pages).used_pages == pre.used_pages,
{
    law_run_in_extent(page_size, pre, num_pages, align_pow2, addr, mid);
}

/// What is handed out lies in the extent. The address returned is that of
/// the page with the lowest index of the run, a page boundary; the other
/// pages of the run have higher indices and so lie below it, none of them
/// below the start of the extent. The invariant holds afterwards, and the
/// counter and the bitmap still agree if they did.
pub proof fn law_run_in_extent(
    page_size: nat,
    pre: EarlyAllocatorView,
    num_pages: nat,
    align_pow2: nat,
    addr: usize,
    post: EarlyAllocatorView,
)
    requires
        pre.wf(page_size),
        alloc_pages_post(pre, page_size, num_pages, align_pow2, Ok(addr), post),
    ensures
        pre.start <= addr - (num_pages - 1) * page_size,
        addr + page_size <= pre.end,
        (pre.end - addr) % (page_size as int) == 0,
        post.wf(page_size),
        pre.consistent() ==> post.consistent(),
{
    lemma_pow2_positive(page_size as int);
    let index = pre.page_index(page_size, addr as int) - 1;
    let align = page_align(page_size, num_pages, align_pow2);
    lemma_run_in_extent(pre, page_size, index, num_pages as int, align);
    assert((index + num_pages) * page_size <= pre.total_pages * page_size) by (nonlinear_arith)
        requires
            index + num_pages <= pre.total_pages,
            page_size >= 0,
    ;
    assert((index + num_pages) * page_size == (index + 1) * page_size + (num_pages - 1)
        * page_size) by (nonlinear_arith);
    assert((index + 1) * page_size >= page_size) by (nonlinear_arith)
        requires
            index >= 0,
            page_size >= 0,
    ;
    vstd::arithmetic::div_mod::lemma_mod_multiples_basic(index + 1, page_size as int);
}

/// Releasing a run keeps the invariant. Where counter and bitmap agreed,
/// they still agree afterwards exactly if every index of the run names a
/// page of the extent and none of these pages was free already.
pub proof fn law_release_keeps_accounts(
    page_size: nat,
    pre: EarlyAllocatorView,
    addr: nat,
    num_pages: nat,
)
    requires
        pre.wf(page_size),
        pre.consistent(),
        dealloc_pages_pre(pre, page_size, addr, num_pages),
    ensures
        dealloc_pages_post(pre, page_size, addr, num_pages).wf(page_size),
        dealloc_pages_post(pre, page_size, addr, num_pages).consistent() <==> {
            let first = pre.page_index(page_size, addr as int);
            &&& set_int_range(first, first + num_pages).subset_of(
                set_int_range(0, pre.total_pages as int),
            )
            &&& pre.free_pages.disjoint(set_int_range(first, first + num_pages))
        },
{
    lemma_pow2_positive(page_size as int);
    let first = pre.page_index(page_size, addr as int);
    let run = set_int_range(first, first + num_pages);
    let all = set_int_range(0, pre.total_pages as int);
    let clipped = released_pages(pre, page_size, addr, num_pages);
    let post = dealloc_pages_post(pre, page_size, addr, num_pages);
    lemma_int_range(0, pre.total_pages as int);
    lemma_int_range(first, first + num_pages);
    lemma_len_subset(pre.free_pages, all);
    lemma_len_subset(clipped, run);
    assert(post.free_pages.subset_of(all));
    lemma_len_subset(post.free_pages, all);
    vstd::set_lib::lemma_set_intersect_union_lens(pre.free_pages, clipped);
    lemma_len_subset(pre.free_pages.intersect(clipped), clipped);
    if run.subset_of(all) {
        assert(clipped =~= run);
        if pre.free_pages.disjoint(run) {
            assert(pre.free_pages.intersect(clipped) =~= Set::<int>::empty());
        } else {
            let x = choose|x: int| pre.free_pages.contains(x) && run.contains(x);
            assert(pre.free_pages.intersect(clipped).contains(x));
            if pre.free_pages.intersect(clipped).len() == 0 {
                assert(pre.free_pages.intersect(clipped) =~= Set::<int>::empty());
            }
        }
    } else {
        if clipped.len() == num_pages {
            vstd::set_lib::lemma_subset_equality(clipped, run);
        }
    }
}

/// A request for one page succeeds exactly when a page is free, and each
/// success leaves one free page fewer: asking again and again runs into
/// `NoMemory` after as many successes as there were free pages.
pub proof fn law_single_page_progress(
    page_size: nat,
    pre: EarlyAllocatorView,
    align_pow2: nat,
    r: AllocResult<usize>,
    post: EarlyAllocatorView,
)
    requires
        pre.wf(page_size),
        valid_page_request(page_size, 1, align_pow2),
        alloc_pages_post(pre, page_size, 1, align_pow2, r, post),
    ensures
        r is Ok <==> pre.free_pages.len() > 0,
        r is Ok ==> post.free_pages.len() == pre.free_pages.len() - 1,
        r is Err ==> r == Err::<usize, AllocError>(AllocError::NoMemory),
{
    lemma_int_range(0, pre.total_pages as int);
    lemma_len_subset(pre.free_pages, set_int_range(0, pre.total_pages as int));
    match r {
        Ok(addr) => {
            let index = pre.page_index(page_size, addr as int) - 1;
            lemma_run_in_extent(pre, page_size, index, 1, 1);
            assert(set_int_range(index, index + 1).contains(index));
        },
        Err(_) => {
            lemma_no_page_fits(pre, page_size);
        },
    }
}

/// When the counter and the bitmap agree and a request for one page finds
/// no memory, every page of the extent is counted as used.
pub proof fn law_exhausted_all_used(
    page_size: nat,
    pre: EarlyAllocatorView,
    align_pow2: nat,
    post: EarlyAllocatorView,
)
    requires
        pre.wf(page_size),
        pre.consistent(),
        alloc_pages_post(
            pre,
            page_size,
            1,
            align_pow2,
            Err::<usize, AllocError>(AllocError::NoMemory),
            post,
        ),
    ensures
        pre.used_pages == pre.total_pages,
        post == pre,
{
    lemma_no_page_fits(pre, page_size);
}

/// Where no single page fits, no page is free.
proof fn lemma_no_page_fits(pre: EarlyAllocatorView, page_size: nat)
    requires
        pre.wf(page_size),
        !has_fit(pre.free_pages, 1, 1),
    ensures
        pre.free_pages =~= Set::<int>::empty(),
        pre.free_pages.len() == 0,
{
    assert forall|x: int| !pre.free_pages.contains(x) by {
        if pre.free_pages.contains(x) {
            assert(set_int_range(0, pre.total_pages as int).contains(x));
            assert(set_int_range(x, x + 1).subset_of(pre.free_pages));
            assert(run_fits(pre.free_pages, x, 1, 1));
        }
    }
}

/// A block served and released with the same size leaves the used-byte
/// counter where it was.
pub proof fn law_byte_round_trip(pre: EarlyAllocatorView, size: nat)
    ensures
        dealloc_post(alloc_bytes_post(pre, size), size).used_bytes == pre.used_bytes,
        dealloc_post(alloc_bytes_post(pre, size), size) == pre,
{
}

/// Through any run of requests served and blocks released, each released
/// with the size it was asked with, the used-byte counter stands above its
/// start by the sizes still outstanding. Once every block is back, the
/// counter is where it started: at zero for a fresh allocator.
pub proof fn law_bytes_outstanding(pre: EarlyAllocatorView, trace: Seq<ByteEvent>)
    requires
        releases_outstanding(trace),
    ensures
        after_byte_trace(pre, trace).used_bytes == pre.used_bytes + total_size(outstanding(trace)),
        outstanding(trace).len() == 0 ==> after_byte_trace(pre, trace).used_bytes
            == pre.used_bytes,
    decreases trace.len(),
{
    if trace.len() > 0 {
        let earlier = trace.drop_last();
        law_bytes_outstanding(pre, earlier);
        match trace.last() {
            ByteEvent::Served(size) => {
                assert(outstanding(earlier).push(size).drop_last() =~= outstanding(earlier));
            },
            ByteEvent::Released(at) => {
                lemma_total_size_remove(outstanding(earlier), at as int);
            },
        }
    }
}

} // verus!
