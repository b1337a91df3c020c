//! The application's address space.
//!
//! One root table of gigabyte blocks: low memory and the kernel are mapped
//! onto themselves, the kernel once more in the upper half, and the
//! application's window onto the kernel's gigabyte. Every block may be read,
//! written and executed; no page of one application is protected from
//! another. Making the table the active one is the caller's part.

use vstd::prelude::*;

verus! {

/// Number of entries in a root table.
pub const PAGE_TABLE_ENTRIES: usize = 512;

/// Flags of a block: valid, readable, writable, executable, global,
/// accessed and dirty.
pub const BLOCK_FLAGS: u64 = 0xef;

/// Page number of the gigabyte that holds the kernel.
pub const KERNEL_PPN: u64 = 0x8_0000;

/// Root-table slot of the first gigabyte, mapped onto itself.
pub const LOW_SLOT: usize = 0;

/// Root-table slot of the application's window.
pub const APP_SLOT: usize = 1;

/// Root-table slot of the kernel's gigabyte, mapped onto itself.
pub const KERNEL_SLOT: usize = 2;

/// Root-table slot of the kernel's gigabyte in the upper half.
pub const KERNEL_HIGH_SLOT: usize = 0x102;

/// The entry of a block at page number `ppn`: the page number above the ten
/// flag bits.
pub open spec fn block_entry_spec(ppn: nat) -> nat {
    ppn * 1024 + BLOCK_FLAGS as nat
}

/// The root table after the application's mapping was entered in it.
pub open spec fn app_page_table_spec(table: Seq<u64>) -> Seq<u64> {
    let kernel = block_entry_spec(KERNEL_PPN as nat) as u64;
    let low = block_entry_spec(0) as u64;
    table.update(KERNEL_SLOT as int, kernel).update(KERNEL_HIGH_SLOT as int, kernel).update(
        LOW_SLOT as int,
        low,
    ).update(APP_SLOT as int, kernel)
}

/// The entry of a block at page number `ppn`, with all rights.
pub fn block_entry(ppn: u64) -> (r: u64)
    requires
        ppn < 0x40_0000_0000_0000,
    ensures
        r == block_entry_spec(ppn as nat),
{
    assert((ppn << 10) | 0xef == ppn * 1024 + 0xef) by (bit_vector)
        requires
            ppn < 0x40_0000_0000_0000,
    ;
    (ppn << 10) | BLOCK_FLAGS
}

/// Enters the application's mapping in the root table: four blocks, the
/// other entries stay as they are.
pub fn init_app_page_table(table: &mut [u64; 512])
    ensures
        final(table)@ == app_page_table_spec(old(table)@),
{
    table[KERNEL_SLOT] = block_entry(KERNEL_PPN);
    table[KERNEL_HIGH_SLOT] = block_entry(KERNEL_PPN);
    table[LOW_SLOT] = block_entry(0);
    table[APP_SLOT] = block_entry(KERNEL_PPN);
}

/// The page number to load as the root of translation: the physical
/// address of the root table, which lies `phys_virt_offset` below its
/// virtual address, in units of 4 KiB.
pub fn page_table_root_ppn(root_vaddr: usize, phys_virt_offset: usize) -> (r: usize)
    requires
        phys_virt_offset <= root_vaddr,
    ensures
        r == (root_vaddr - phys_virt_offset) / 4096,
{
    let paddr: usize = root_vaddr - phys_virt_offset;
    assert(paddr >> 12 == paddr / 4096) by (bit_vector);
    paddr >> 12
}

} // verus!
