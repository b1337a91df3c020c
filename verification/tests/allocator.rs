use axcore::allocator::align_down;
use axcore::allocator::align_up;
use axcore::allocator::early::EarlyAllocator;
use axcore::allocator::log2_exact;
use axcore::allocator::AllocError;
use std::mem::MaybeUninit;

const PAGE: usize = 4096;

fn fresh(start: usize, size: usize) -> EarlyAllocator<PAGE> {
    let mut a = EarlyAllocator::<PAGE>::new();
    a.init(start, size);
    a
}

#[test]
fn align_rounds_to_multiples() {
    assert_eq!(align_down(0x1234, PAGE), 0x1000);
    assert_eq!(align_down(0x2000, PAGE), 0x2000);
    assert_eq!(align_down(0xfff, PAGE), 0);
    assert_eq!(align_up(0x1234, PAGE), 0x2000);
    assert_eq!(align_up(0x2000, PAGE), 0x2000);
    assert_eq!(align_up(1, PAGE), 0x1000);
    assert_eq!(align_up(0, PAGE), 0);
}

#[test]
fn log2_exact_of_powers_and_others() {
    assert_eq!(log2_exact(1), Some(0));
    assert_eq!(log2_exact(2), Some(1));
    assert_eq!(log2_exact(4096), Some(12));
    assert_eq!(log2_exact(1 << 31), Some(31));
    assert_eq!(log2_exact(0), None);
    assert_eq!(log2_exact(3), None);
    assert_eq!(log2_exact(12), None);
    assert_eq!(log2_exact(4097), None);
}

#[test]
fn new_allocator_has_nothing() {
    let mut a = EarlyAllocator::<PAGE>::new();
    assert_eq!(a.used_pages(), 0);
    assert_eq!(a.used_bytes(), 0);
    assert_eq!(a.alloc_pages(1, PAGE), Err(AllocError::NoMemory));
}

#[test]
fn total_pages_of_aligned_extent() {
    let mut a = fresh(0x1000, 4 * PAGE);
    for _ in 0..4 {
        assert!(a.alloc_pages(1, PAGE).is_ok());
    }
    assert_eq!(a.alloc_pages(1, PAGE), Err(AllocError::NoMemory));
    assert_eq!(a.used_pages(), 4);
}

#[test]
fn total_pages_of_unaligned_extent() {
    // start rounds up to 0x2000, the end 0x6234 rounds down to 0x6000
    let mut a = fresh(0x1234, 0x5000);
    assert_eq!(a.alloc_pages(1, PAGE), Ok(0x5000));
    assert_eq!(a.alloc_pages(1, PAGE), Ok(0x4000));
    assert_eq!(a.alloc_pages(1, PAGE), Ok(0x3000));
    assert_eq!(a.alloc_pages(1, PAGE), Ok(0x2000));
    assert_eq!(a.alloc_pages(1, PAGE), Err(AllocError::NoMemory));
    assert_eq!(a.used_pages(), 4);
}

#[test]
fn extent_without_a_whole_page() {
    let mut a = fresh(0x1000, 0xfff);
    assert_eq!(a.alloc_pages(1, PAGE), Err(AllocError::NoMemory));
    assert_eq!(a.used_pages(), 0);
}

#[test]
fn pages_come_from_the_top_downward() {
    let mut a = fresh(0x10_0000, 8 * PAGE);
    let end = 0x10_0000 + 8 * PAGE;
    assert_eq!(a.alloc_pages(1, PAGE), Ok(end - PAGE));
    assert_eq!(a.alloc_pages(1, PAGE), Ok(end - 2 * PAGE));
    assert_eq!(a.alloc_pages(1, PAGE), Ok(end - 3 * PAGE));
    assert_eq!(a.used_pages(), 3);
}

#[test]
fn single_page_round_trip_restores_used_pages() {
    let mut a = fresh(0x10_0000, 4 * PAGE);
    let first = a.alloc_pages(1, PAGE).unwrap();
    let _second = a.alloc_pages(1, PAGE).unwrap();
    let _third = a.alloc_pages(1, PAGE).unwrap();
    // the address of page 0 names index 1
    a.dealloc_pages(first, 1);
    let before = a.used_pages();
    assert_eq!(before, 2);
    let again = a.alloc_pages(1, PAGE).unwrap();
    assert_eq!(a.used_pages(), before + 1);
    // the address of page 1 names index 2, which is taken
    a.dealloc_pages(again, 1);
    assert_eq!(a.used_pages(), before);
}

#[test]
fn misaligned_alignment_is_invalid() {
    let mut a = fresh(0x10_0000, 4 * PAGE);
    for align in [1usize, 2, 7, 100, 4095, 4097, 6000, 8191, 3 * PAGE + 1] {
        assert_eq!(a.alloc_pages(1, align), Err(AllocError::InvalidParam));
        assert_eq!(a.alloc_pages(2, align), Err(AllocError::InvalidParam));
    }
    assert_eq!(a.used_pages(), 0);
}

#[test]
fn alignment_must_be_a_power_of_two_in_pages() {
    let mut a = fresh(0x10_0000, 4 * PAGE);
    assert_eq!(a.alloc_pages(1, 3 * PAGE), Err(AllocError::InvalidParam));
    assert_eq!(a.alloc_pages(1, 0), Err(AllocError::InvalidParam));
    assert_eq!(a.alloc_pages(2, 6 * PAGE), Err(AllocError::InvalidParam));
    assert_eq!(a.used_pages(), 0);
}

#[test]
fn zero_pages_is_invalid() {
    let mut a = fresh(0x10_0000, 4 * PAGE);
    assert_eq!(a.alloc_pages(0, PAGE), Err(AllocError::InvalidParam));
    assert_eq!(a.used_pages(), 0);
}

#[test]
fn exhaustion_yields_no_memory_with_all_pages_used() {
    let pages = 37;
    let mut a = fresh(0x4000_0000, pages * PAGE);
    let mut got = 0;
    loop {
        match a.alloc_pages(1, PAGE) {
            Ok(addr) => {
                assert_eq!(addr, 0x4000_0000 + (pages - got - 1) * PAGE);
                got += 1;
            }
            Err(e) => {
                assert_eq!(e, AllocError::NoMemory);
                break;
            }
        }
        assert!(got <= pages);
    }
    assert_eq!(got, pages);
    assert_eq!(a.used_pages(), pages);
    assert_eq!(a.alloc_pages(1, PAGE), Err(AllocError::NoMemory));
}

#[test]
fn run_of_pages_is_taken_at_lowest_index() {
    let mut a = fresh(0x10_0000, 8 * PAGE);
    let end = 0x10_0000 + 8 * PAGE;
    // indices 0 and 1
    assert_eq!(a.alloc_pages(2, PAGE), Ok(end - PAGE));
    assert_eq!(a.used_pages(), 2);
    // indices 2, 3 and 4
    assert_eq!(a.alloc_pages(3, PAGE), Ok(end - 3 * PAGE));
    assert_eq!(a.used_pages(), 5);
    // a single page then takes index 5
    assert_eq!(a.alloc_pages(1, PAGE), Ok(end - 6 * PAGE));
}

#[test]
fn run_of_pages_honours_alignment() {
    let mut a = fresh(0x10_0000, 16 * PAGE);
    let end = 0x10_0000 + 16 * PAGE;
    // index 0
    assert_eq!(a.alloc_pages(1, PAGE), Ok(end - PAGE));
    // two pages at a multiple of two: indices 2 and 3
    assert_eq!(a.alloc_pages(2, 2 * PAGE), Ok(end - 3 * PAGE));
    // two pages at a multiple of eight: indices 8 and 9
    assert_eq!(a.alloc_pages(2, 8 * PAGE), Ok(end - 9 * PAGE));
    // index 1 is still free
    assert_eq!(a.alloc_pages(1, PAGE), Ok(end - 2 * PAGE));
    assert_eq!(a.used_pages(), 6);
}

#[test]
fn run_that_does_not_fit_is_no_memory() {
    let mut a = fresh(0x10_0000, 4 * PAGE);
    assert_eq!(a.alloc_pages(5, PAGE), Err(AllocError::NoMemory));
    assert!(a.alloc_pages(1, PAGE).is_ok());
    // indices 1, 2, 3 are free, but no run of two starts at a multiple of four
    assert_eq!(a.alloc_pages(2, 4 * PAGE), Err(AllocError::NoMemory));
    assert_eq!(a.alloc_pages(4, PAGE), Err(AllocError::NoMemory));
    // indices 1, 2 and 3: the address is that of index 1
    assert_eq!(a.alloc_pages(3, PAGE), Ok(0x10_0000 + 2 * PAGE));
    assert_eq!(a.used_pages(), 4);
}

#[test]
fn alignment_beyond_the_bitmap_is_no_memory() {
    let mut a = fresh(0x10_0000, 4 * PAGE);
    assert_eq!(a.alloc_pages(2, PAGE << 20), Ok(0x10_0000 + 3 * PAGE));
    let mut b = fresh(0x10_0000, 4 * PAGE);
    assert_eq!(b.alloc_pages(2, PAGE << 21), Err(AllocError::NoMemory));
    // a single page ignores the alignment
    assert_eq!(b.alloc_pages(1, PAGE << 21), Ok(0x10_0000 + 3 * PAGE));
}

#[test]
fn dealloc_pages_frees_the_run_it_names() {
    let mut a = fresh(0x10_0000, 8 * PAGE);
    let end = 0x10_0000 + 8 * PAGE;
    for _ in 0..8 {
        a.alloc_pages(1, PAGE).unwrap();
    }
    assert_eq!(a.used_pages(), 8);
    // the address of index 2 names the run that starts at index 3
    a.dealloc_pages(end - 3 * PAGE, 3);
    assert_eq!(a.used_pages(), 5);
    assert_eq!(a.alloc_pages(3, PAGE), Ok(end - 4 * PAGE));
    assert_eq!(a.alloc_pages(1, PAGE), Err(AllocError::NoMemory));
    assert_eq!(a.used_pages(), 8);
}

#[test]
fn dealloc_pages_takes_the_count_on_trust() {
    let mut a = fresh(0x10_0000, 8 * PAGE);
    let end = 0x10_0000 + 8 * PAGE;
    for _ in 0..4 {
        a.alloc_pages(1, PAGE).unwrap();
    }
    // indices 4 and 5 are free already; the counter drops all the same
    a.dealloc_pages(end - 3 * PAGE, 3);
    assert_eq!(a.used_pages(), 1);
    // index 3 is free again
    assert_eq!(a.alloc_pages(1, PAGE), Ok(end - 4 * PAGE));
}

#[test]
fn can_dealloc_pages_tells_what_may_be_released() {
    let mut a = fresh(0x10_0000, 4 * PAGE);
    let end = 0x10_0000 + 4 * PAGE;
    // nothing is counted as used yet
    assert!(!a.can_dealloc_pages(end - PAGE, 1));
    assert!(a.can_dealloc_pages(end - PAGE, 0));
    let top = a.alloc_pages(1, PAGE).unwrap();
    let next = a.alloc_pages(1, PAGE).unwrap();
    assert!(a.can_dealloc_pages(top, 1));
    assert!(a.can_dealloc_pages(next, 2));
    // more than the counter holds
    assert!(!a.can_dealloc_pages(next, 3));
    // an address above the extent
    assert!(!a.can_dealloc_pages(end + 1, 1));
    assert!(a.can_dealloc_pages(end, 1));
    // every address in the extent and below it can be released
    assert!(a.can_dealloc_pages(0x10_0000, 1));
    assert!(a.can_dealloc_pages(0x10_0000 + PAGE, 2));
    assert!(a.can_dealloc_pages(0, 2));
    assert!(a.can_dealloc_pages(end - PAGE - 1, 1));
}

#[test]
fn every_page_handed_out_can_be_released() {
    // on an extent of one page the page handed out is the last
    let mut a = fresh(0x10_0000, PAGE);
    let before = a.used_pages();
    let addr = a.alloc_pages(1, PAGE).unwrap();
    assert_eq!(addr, 0x10_0000);
    assert_eq!(a.used_pages(), before + 1);
    assert!(a.can_dealloc_pages(addr, 1));
    a.dealloc_pages(addr, 1);
    assert_eq!(a.used_pages(), before);
    // the address names the index above the page taken, which is no page:
    // the page taken stays taken
    assert_eq!(a.alloc_pages(1, PAGE), Err(AllocError::NoMemory));

    // on a fresh extent of several pages the index above is free already
    let mut b = fresh(0x10_0000, 4 * PAGE);
    let addr = b.alloc_pages(1, PAGE).unwrap();
    b.dealloc_pages(addr, 1);
    assert_eq!(b.used_pages(), 0);
    assert_eq!(b.alloc_pages(1, PAGE), Ok(0x10_0000 + 2 * PAGE));

    // and so for runs, to the last page of the extent
    let mut c = fresh(0, 4 * PAGE);
    let run = c.alloc_pages(4, PAGE).unwrap();
    assert_eq!(run, 3 * PAGE);
    assert_eq!(c.used_pages(), 4);
    c.dealloc_pages(run, 4);
    assert_eq!(c.used_pages(), 0);
    // indices 1, 2 and 3 are free again, index 4 is no page
    assert_eq!(c.alloc_pages(4, PAGE), Err(AllocError::NoMemory));
    assert_eq!(c.alloc_pages(3, PAGE), Ok(2 * PAGE));
    assert_eq!(c.alloc_pages(1, PAGE), Err(AllocError::NoMemory));
}

#[test]
fn release_beyond_the_extent_frees_no_page() {
    let mut a = fresh(0x10_0000, 2 * PAGE);
    a.alloc_pages(2, PAGE).unwrap();
    // the address names index 6
    a.dealloc_pages(0x10_0000 - 4 * PAGE, 2);
    assert_eq!(a.used_pages(), 0);
    assert_eq!(a.alloc_pages(1, PAGE), Err(AllocError::NoMemory));
    assert_eq!(a.used_pages(), 0);
}

#[test]
fn init_again_starts_over() {
    let mut a = fresh(0x10_0000, 4 * PAGE);
    a.alloc_pages(1, PAGE).unwrap();
    a.account_block(10, Some(0x10_0000)).unwrap();
    a.init(0x20_0000, 2 * PAGE);
    assert_eq!(a.used_pages(), 0);
    assert_eq!(a.used_bytes(), 0);
    assert_eq!(a.alloc_pages(1, PAGE), Ok(0x20_0000 + PAGE));
    assert_eq!(a.alloc_pages(1, PAGE), Ok(0x20_0000));
    assert_eq!(a.alloc_pages(1, PAGE), Err(AllocError::NoMemory));
}

/// An allocator over `pages` pages whose byte pool has `bytes` bytes of
/// its own.
fn fresh_with_pool(pages: usize, bytes: usize) -> EarlyAllocator<PAGE> {
    let mut a = fresh(0x10_0000, pages * PAGE);
    let memory: &'static mut [MaybeUninit<u8>] =
        Box::leak(vec![MaybeUninit::uninit(); bytes].into_boxed_slice());
    let _ = a.byte_pool().insert_free_block(memory);
    a
}

#[test]
fn byte_round_trip_restores_used_bytes() {
    let mut a = fresh_with_pool(4, 4096);
    let first = a.alloc_bytes(64, 8).unwrap();
    assert_ne!(first, 0);
    assert_eq!(first % 8, 0);
    assert_eq!(a.used_bytes(), 64);
    let before = a.used_bytes();
    let second = a.alloc_bytes(24, 16).unwrap();
    assert_ne!(second, 0);
    assert_eq!(second % 16, 0);
    assert!(second >= first + 64 || second + 24 <= first);
    assert_eq!(a.used_bytes(), 88);
    a.dealloc(24);
    assert_eq!(a.used_bytes(), before);
    a.dealloc(64);
    assert_eq!(a.used_bytes(), 0);
}

#[test]
fn bytes_freed_in_any_order_leave_nothing_used() {
    let mut a = fresh_with_pool(4, 16 * 4096);
    let sizes = [8usize, 100, 1, 4096, 33];
    let mut blocks: Vec<usize> = Vec::new();
    for size in sizes {
        let addr = a.alloc_bytes(size, 8).unwrap();
        assert!(!blocks.contains(&addr));
        blocks.push(addr);
    }
    assert_eq!(a.used_bytes(), 8 + 100 + 1 + 4096 + 33);
    for size in [4096usize, 8, 33, 1, 100] {
        a.dealloc(size);
    }
    assert_eq!(a.used_bytes(), 0);
}

#[test]
fn byte_pool_without_memory_is_no_memory() {
    let mut a = fresh(0x10_0000, 4 * PAGE);
    assert_eq!(a.alloc_bytes(64, 8), Err(AllocError::NoMemory));
    assert_eq!(a.used_bytes(), 0);
}

#[test]
fn byte_pool_runs_out() {
    let mut a = fresh_with_pool(4, 1024);
    let mut got = 0;
    while a.alloc_bytes(100, 4).is_ok() {
        got += 1;
        assert!(got <= 10);
    }
    assert!(got >= 1);
    assert_eq!(a.alloc_bytes(100, 4), Err(AllocError::NoMemory));
    assert_eq!(a.used_bytes(), got * 100);
    assert_eq!(a.alloc_bytes(4096, 8), Err(AllocError::NoMemory));
}

#[test]
fn bytes_with_a_bad_layout_are_invalid() {
    let mut a = fresh_with_pool(4, 4096);
    assert_eq!(a.alloc_bytes(64, 0), Err(AllocError::InvalidParam));
    assert_eq!(a.alloc_bytes(64, 3), Err(AllocError::InvalidParam));
    assert_eq!(a.alloc_bytes(64, 24), Err(AllocError::InvalidParam));
    assert_eq!(a.alloc_bytes(isize::MAX as usize, 2), Err(AllocError::InvalidParam));
    assert_eq!(a.alloc_bytes(isize::MAX as usize, 1), Err(AllocError::NoMemory));
    assert_eq!(a.used_bytes(), 0);
    assert!(a.alloc_bytes(0, 1).is_ok());
    assert_eq!(a.used_bytes(), 0);
}

#[test]
fn bytes_beyond_the_counter_are_no_memory() {
    let mut a = fresh_with_pool(4, 4096);
    assert_eq!(a.account_block(usize::MAX - 5, Some(0x10_0000)), Ok(0x10_0000));
    assert_eq!(a.alloc_bytes(6, 1), Err(AllocError::NoMemory));
    assert_eq!(a.used_bytes(), usize::MAX - 5);
    // what the counter can take is asked of the pool
    let addr = a.alloc_bytes(5, 1).unwrap();
    assert_ne!(addr, 0);
    assert_eq!(a.used_bytes(), usize::MAX);
    a.dealloc(5);
    assert_eq!(a.used_bytes(), usize::MAX - 5);
}

#[test]
fn account_block_counts_what_the_pool_found() {
    let mut a = fresh(0x10_0000, 4 * PAGE);
    assert_eq!(a.account_block(64, Some(0x10_0040)), Ok(0x10_0040));
    assert_eq!(a.used_bytes(), 64);
    assert_eq!(a.account_block(24, Some(0x10_0100)), Ok(0x10_0100));
    assert_eq!(a.used_bytes(), 88);
    assert_eq!(a.account_block(64, None), Err(AllocError::NoMemory));
    assert_eq!(a.used_bytes(), 88);
    a.dealloc(24);
    a.dealloc(64);
    assert_eq!(a.used_bytes(), 0);
}

#[test]
fn init_empties_the_byte_pool() {
    let mut a = fresh_with_pool(4, 4096);
    assert!(a.alloc_bytes(64, 8).is_ok());
    a.init(0x20_0000, 2 * PAGE);
    assert_eq!(a.used_bytes(), 0);
    assert_eq!(a.alloc_bytes(64, 8), Err(AllocError::NoMemory));
}

#[test]
fn byte_accounting_leaves_pages_alone() {
    let mut a = fresh(0x10_0000, 2 * PAGE);
    a.alloc_pages(1, PAGE).unwrap();
    a.account_block(5, Some(0x10_0000)).unwrap();
    assert_eq!(a.used_pages(), 1);
    a.dealloc(5);
    assert_eq!(a.used_pages(), 1);
    assert_eq!(a.alloc_pages(1, PAGE), Ok(0x10_0000));
}

#[test]
fn totals_and_available_are_unsupported() {
    let mut a = fresh(0x10_0000, 4 * PAGE);
    assert_eq!(a.total_pages(), Err(AllocError::Unsupported));
    assert_eq!(a.available_pages(), Err(AllocError::Unsupported));
    assert_eq!(a.total_bytes(), Err(AllocError::Unsupported));
    assert_eq!(a.available_bytes(), Err(AllocError::Unsupported));
    assert_eq!(a.add_memory(0x20_0000, PAGE), Err(AllocError::Unsupported));
    assert_eq!(a.used_pages(), 0);
}

#[test]
fn other_page_sizes() {
    let mut a = EarlyAllocator::<0x1_0000>::new();
    a.init(0x8000_1000, 0x4_0000);
    // start rounds up to 0x8001_0000, end 0x8004_1000 down to 0x8004_0000
    assert_eq!(a.alloc_pages(1, 0x1_0000), Ok(0x8003_0000));
    assert_eq!(a.alloc_pages(1, 4096), Err(AllocError::InvalidParam));
    assert_eq!(a.alloc_pages(2, 0x1_0000), Ok(0x8002_0000));
    assert_eq!(a.alloc_pages(1, 0x1_0000), Err(AllocError::NoMemory));
    assert_eq!(a.used_pages(), 3);
}

/// A page domain kept by hand: the lowest fit is searched index by index.
struct PageModel {
    end: usize,
    free: Vec<bool>,
    used: usize,
}

impl PageModel {
    fn take(&mut self, num_pages: usize, align_pages: usize) -> Option<usize> {
        let align = if num_pages == 1 { 1 } else { align_pages };
        let mut base = 0;
        while base + num_pages <= self.free.len() {
            if self.free[base..base + num_pages].iter().all(|free| *free) {
                for page in &mut self.free[base..base + num_pages] {
                    *page = false;
                }
                self.used += num_pages;
                return Some(self.end - (base + 1) * PAGE);
            }
            base += align;
        }
        None
    }

    fn release(&mut self, addr: usize, num_pages: usize) {
        let first = (self.end - addr) / PAGE;
        for index in first..first + num_pages {
            if index < self.free.len() {
                self.free[index] = true;
            }
        }
        self.used -= num_pages;
    }
}

#[test]
fn page_domain_follows_the_lowest_fit() {
    let start = 0x4000_0000;
    let mut seed: u64 = 0x2545_f491_4f6c_dd1d;
    let mut next = move |below: usize| {
        seed = seed
            .wrapping_mul(6364136223846793005)
            .wrapping_add(1442695040888963407);
        ((seed >> 33) as usize) % below
    };
    for pages in [1usize, 2, 5, 16, 17, 40, 300] {
        let mut a = fresh(start, pages * PAGE);
        let mut model = PageModel {
            end: start + pages * PAGE,
            free: vec![true; pages],
            used: 0,
        };
        let mut held: Vec<(usize, usize)> = Vec::new();
        for _ in 0..400 {
            if next(3) < 2 {
                let num_pages = 1 + next(4);
                let align_pages = 1usize << next(4);
                let got = a.alloc_pages(num_pages, align_pages * PAGE);
                match model.take(num_pages, align_pages) {
                    Some(addr) => {
                        assert_eq!(got, Ok(addr));
                        held.push((addr, num_pages));
                    }
                    None => assert_eq!(got, Err(AllocError::NoMemory)),
                }
            } else if !held.is_empty() {
                let (addr, num_pages) = held.swap_remove(next(held.len()));
                assert!(a.can_dealloc_pages(addr, num_pages));
                a.dealloc_pages(addr, num_pages);
                model.release(addr, num_pages);
            }
            assert_eq!(a.used_pages(), model.used);
        }
    }
}

#[test]
fn can_init_tells_which_extents_are_valid() {
    assert!(EarlyAllocator::<PAGE>::can_init(0x1000, 4 * PAGE));
    assert!(EarlyAllocator::<PAGE>::can_init(0x1234, 0x5000));
    // no page boundary inside
    assert!(EarlyAllocator::<PAGE>::can_init(0x1000, 0xfff));
    assert!(!EarlyAllocator::<PAGE>::can_init(0x1001, 0xffe));
    assert!(!EarlyAllocator::<PAGE>::can_init(0x1001, 0));
    assert!(EarlyAllocator::<PAGE>::can_init(0x1000, 0));
    // the end is beyond the address space
    assert!(!EarlyAllocator::<PAGE>::can_init(usize::MAX, 1));
    assert!(!EarlyAllocator::<PAGE>::can_init(0x1000, usize::MAX));
    // the page size is no power of two
    assert!(!EarlyAllocator::<3000>::can_init(0, 9000));
    assert!(!EarlyAllocator::<0>::can_init(0, 9000));
    // the bitmap has a bit for a million pages and no more
    assert!(EarlyAllocator::<PAGE>::can_init(0x1_0000_0000, 0x10_0000 * PAGE));
    assert!(!EarlyAllocator::<PAGE>::can_init(0x1_0000_0000, 0x10_0001 * PAGE));
}

#[test]
fn extent_as_large_as_the_bitmap() {
    let start = 0x1_0000_0000;
    let pages = 0x10_0000;
    let mut a = fresh(start, pages * PAGE);
    let end = start + pages * PAGE;
    assert_eq!(a.alloc_pages(1, PAGE), Ok(end - PAGE));
    // index 0 is taken: the next run at a multiple of 2^19 pages starts there
    assert_eq!(a.alloc_pages(2, PAGE << 19), Ok(end - ((1 << 19) + 1) * PAGE));
    assert_eq!(a.alloc_pages(2, PAGE << 20), Err(AllocError::NoMemory));
    // the indices from 2 to 2^19 - 1 are free: a run of that length fits there
    assert_eq!(a.alloc_pages((1 << 19) - 2, PAGE << 1), Ok(end - 3 * PAGE));
    // above 2^19 + 1 as many pages are left, up to the last index
    assert_eq!(a.alloc_pages((1 << 19) - 1, PAGE << 1), Err(AllocError::NoMemory));
    assert_eq!(a.alloc_pages((1 << 19) - 2, PAGE << 1), Ok(end - ((1 << 19) + 3) * PAGE));
    assert_eq!(a.alloc_pages(1, PAGE), Ok(end - 2 * PAGE));
    assert_eq!(a.alloc_pages(1, PAGE), Err(AllocError::NoMemory));
    assert_eq!(a.used_pages(), pages);
}
