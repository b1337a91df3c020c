//! Decisions taken while the system comes up: when every processor has
//! reported in, which memory the heap starts with, when the timer fires
//! next, and which entries of a device tree describe a virtio window.
//!
//! Reading the hardware and acting on it is the caller's part; what is
//! decided here is decided from plain values.

use crate::loader::blob::be_value;
use crate::loader::blob::bytes_to_usize;
use vstd::prelude::*;
use vstd::slice::slice_subrange;

verus! {

/// Whether every processor has reported that it is initialised: the count
/// of reports has reached the number of processors.
pub fn is_init_ok(inited_cpus: usize, smp: usize) -> (r: bool)
    ensures
        r == (inited_cpus == smp),
{
    inited_cpus == smp
}

/// A region of physical memory as the platform reports it.
#[derive(Clone, Copy, Debug, PartialEq, Eq, Structural)]
pub struct MemRegion {
    /// Physical address of the first byte.
    pub paddr: usize,
    /// Length in bytes.
    pub size: usize,
    /// Whether the region is free for the heap.
    pub free: bool,
}

/// Region `k` is the first among the largest free regions, and holds at
/// least a byte.
pub open spec fn is_first_largest_free(regions: Seq<MemRegion>, k: int) -> bool {
    &&& 0 <= k < regions.len()
    &&& regions[k].free
    &&& regions[k].size > 0
    &&& forall|j: int| 0 <= j < regions.len() && regions[j].free ==> regions[j].size <= regions[k].size
    &&& forall|j: int| 0 <= j < k && regions[j].free ==> regions[j].size < regions[k].size
}

/// The address by which the heap's first region is picked: that of the
/// first among the largest free regions, or zero where no free region holds
/// a byte.
pub open spec fn heap_paddr(regions: Seq<MemRegion>) -> usize {
    if exists|k: int| is_first_largest_free(regions, k) {
        regions[choose|k: int| is_first_largest_free(regions, k)].paddr
    } else {
        0
    }
}

/// There is at most one first largest free region.
pub proof fn lemma_first_largest_free_unique(regions: Seq<MemRegion>, k: int, l: int)
    requires
        is_first_largest_free(regions, k),
        is_first_largest_free(regions, l),
    ensures
        k == l,
{
    if k < l {
        assert(regions[k].size < regions[l].size);
    } else if l < k {
        assert(regions[l].size < regions[k].size);
    }
}

/// Region `i` goes to the heap first: it is the first free region at the
/// heap's address.
pub open spec fn is_heap_start(regions: Seq<MemRegion>, i: int) -> bool {
    &&& 0 <= i < regions.len()
    &&& regions[i].free
    &&& regions[i].paddr == heap_paddr(regions)
    &&& forall|j: int|
        0 <= j < i ==> !(regions[j].free && regions[j].paddr == heap_paddr(regions))
}

/// Region `i` is added to the heap afterwards: it is free and lies at
/// another address than the heap's.
pub open spec fn is_heap_addition(regions: Seq<MemRegion>, i: int) -> bool {
    &&& 0 <= i < regions.len()
    &&& regions[i].free
    &&& regions[i].paddr != heap_paddr(regions)
}

/// Which regions make up the heap, by their positions in the platform's
/// list.
pub struct HeapPlan {
    /// The region to initialise the heap with, if there is one.
    pub first: Option<usize>,
    /// The regions to add to the heap then, in the order of the list.
    pub rest: Vec<usize>,
}

/// Plans the heap over the platform's regions: it starts with the largest
/// free region, the first of them if several are as large, and every free
/// region at another address is added to it.
pub fn plan_heap(regions: &[MemRegion]) -> (plan: HeapPlan)
    ensures
        match plan.first {
            Some(i) => is_heap_start(regions@, i as int),
            None => forall|i: int| !is_heap_start(regions@, i),
        },
        forall|n: int| 0 <= n < plan.rest@.len() ==> is_heap_addition(regions@, #[trigger] plan.rest@[n] as int),
        forall|n: int, m: int| 0 <= n < m < plan.rest@.len() ==> plan.rest@[n] < plan.rest@[m],
        forall|i: int| is_heap_addition(regions@, i) ==> plan.rest@.contains(i as usize),
{
    let mut max_region_size: usize = 0;
    let mut max_region_paddr: usize = 0;
    let ghost mut largest: int = -1;
    let mut at: usize = 0;
    while at < regions.len()
        invariant
            at <= regions@.len(),
            -1 <= largest < at,
            largest == -1 ==> max_region_size == 0 && max_region_paddr == 0,
            largest >= 0 ==> {
                &&& regions@[largest].free
                &&& regions@[largest].size == max_region_size
                &&& regions@[largest].paddr == max_region_paddr
                &&& max_region_size > 0
            },
            forall|j: int| 0 <= j < at && regions@[j].free ==> regions@[j].size <= max_region_size,
            forall|j: int|
                0 <= j < largest && regions@[j].free ==> regions@[j].size < max_region_size,
        decreases regions@.len() - at,
    {
        let r: MemRegion = regions[at];
        if r.free && r.size > max_region_size {
            max_region_size = r.size;
            max_region_paddr = r.paddr;
            proof {
                largest = at as int;
            }
        }
        at = at + 1;
    }
    proof {
        if largest >= 0 {
            assert(is_first_largest_free(regions@, largest));
            let k = choose|k: int| is_first_largest_free(regions@, k);
            lemma_first_largest_free_unique(regions@, k, largest);
        } else {
            assert forall|k: int| !is_first_largest_free(regions@, k) by {
                if is_first_largest_free(regions@, k) {
                    assert(regions@[k].size <= max_region_size);
                }
            }
        }
        assert(max_region_paddr == heap_paddr(regions@));
    }
    let mut first: Option<usize> = None;
    at = 0;
    while at < regions.len() && first.is_none()
        invariant
            at <= regions@.len(),
            max_region_paddr == heap_paddr(regions@),
            match first {
                Some(i) => is_heap_start(regions@, i as int),
                None => forall|j: int|
                    0 <= j < at ==> !(regions@[j].free && regions@[j].paddr == heap_paddr(
                        regions@,
                    )),
            },
        decreases regions@.len() - at + (if first.is_none() { 1int } else { 0int }),
    {
        let r: MemRegion = regions[at];
        if r.free && r.paddr == max_region_paddr {
            first = Some(at);
        } else {
            at = at + 1;
        }
    }
    let mut rest: Vec<usize> = Vec::new();
    at = 0;
    while at < regions.len()
        invariant
            at <= regions@.len(),
            max_region_paddr == heap_paddr(regions@),
            forall|n: int| 0 <= n < rest@.len() ==> is_heap_addition(regions@, #[trigger] rest@[n] as int) && rest@[n] < at,
            forall|n: int, m: int| 0 <= n < m < rest@.len() ==> rest@[n] < rest@[m],
            forall|i: int| 0 <= i < at && is_heap_addition(regions@, i) ==> rest@.contains(i as usize),
        decreases regions@.len() - at,
    {
        let r: MemRegion = regions[at];
        let ghost before = rest@;
        if r.free && r.paddr != max_region_paddr {
            rest.push(at);
            proof {
                assert(rest@[before.len() as int] == at);
                assert forall|i: int| 0 <= i < at + 1 && is_heap_addition(regions@, i) implies rest@.contains(i as usize) by {
                    if i < at {
                        let n = choose|n: int| 0 <= n < before.len() && before[n] == i as usize;
                        assert(rest@[n] == i as usize);
                    }
                }
            }
        }
        at = at + 1;
    }
    HeapPlan { first, rest }
}

/// When the timer fires next: at the deadline, or one interval from now
/// where the deadline has passed.
pub open spec fn fire_time(now_ns: int, deadline: int, interval: int) -> int {
    if now_ns >= deadline {
        now_ns + interval
    } else {
        deadline
    }
}

/// When the timer fires next and where the deadline after that lies: one
/// interval after the time at which it fires.
pub fn next_timer(now_ns: u64, deadline: u64, interval: u64) -> (r: (u64, u64))
    requires
        fire_time(now_ns as int, deadline as int, interval as int) + interval <= u64::MAX,
    ensures
        r.0 == fire_time(now_ns as int, deadline as int, interval as int),
        r.1 == r.0 + interval,
{
    let fire_at: u64 = if now_ns >= deadline {
        now_ns + interval
    } else {
        deadline
    };
    (fire_at, fire_at + interval)
}

/// What the scan of a device tree reads of one entry.
#[derive(Clone, Copy, Debug, PartialEq, Eq, Structural)]
pub enum DtbItem {
    /// A node begins; `virtio_mmio` tells whether its name is readable and
    /// starts with `virtio_mmio`.
    BeginNode { virtio_mmio: bool },
    /// A property; `reg` tells whether its name is readable and is `reg`,
    /// in any case of the letters, and its value is readable.
    Property { reg: bool },
    /// Anything else, the end of a node among them.
    Other,
}

/// The scan's state after `item`: whether it is inside a virtio node. The
/// beginning of a virtio node enters one, the beginning of another node
/// changes nothing, a property keeps the scan where it is, and anything
/// else leaves the node.
pub open spec fn in_virtio_after(in_virtio: bool, item: DtbItem) -> bool {
    match item {
        DtbItem::BeginNode { virtio_mmio } => in_virtio || virtio_mmio,
        DtbItem::Property { reg } => in_virtio,
        DtbItem::Other => false,
    }
}

/// Whether `item` describes a virtio window: it is a readable `reg`
/// property inside a virtio node.
pub open spec fn is_virtio_reg(in_virtio: bool, item: DtbItem) -> bool {
    in_virtio && item == (DtbItem::Property { reg: true })
}

/// One step of the scan for virtio windows: returns the state after
/// `item`, and whether the item's value is to be read as a window.
pub fn scan_item(in_virtio: bool, item: DtbItem) -> (r: (bool, bool))
    ensures
        r.0 == in_virtio_after(in_virtio, item),
        r.1 == is_virtio_reg(in_virtio, item),
{
    match item {
        DtbItem::BeginNode { virtio_mmio } => (in_virtio || virtio_mmio, false),
        DtbItem::Property { reg } => (in_virtio, in_virtio && reg),
        DtbItem::Other => (false, false),
    }
}

/// Reads the value of a `reg` property: an address and a size, each eight
/// bytes, most significant byte first.
pub fn reg_pair(reg: &[u8]) -> (r: (usize, usize))
    requires
        reg@.len() >= 16,
        be_value(reg@.subrange(0, 8)) <= usize::MAX,
        be_value(reg@.subrange(8, 16)) <= usize::MAX,
    ensures
        r.0 == be_value(reg@.subrange(0, 8)),
        r.1 == be_value(reg@.subrange(8, 16)),
{
    let addr: usize = bytes_to_usize(slice_subrange(reg, 0, 8));
    let size: usize = bytes_to_usize(slice_subrange(reg, 8, 16));
    (addr, size)
}

} // verus!
