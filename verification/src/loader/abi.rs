//! The system-call table: what the kernel offers to an application.
//!
//! The table maps a small system-call number to the address of its handler.
//! It is filled once, before any application runs, and its address is
//! handed to the application when control is transferred. An entry of zero
//! is unbound.

use vstd::prelude::*;

verus! {

/// Prints a greeting.
pub const SYS_HELLO: usize = 1;

/// Writes one character to the console.
pub const SYS_PUTCHAR: usize = 2;

/// Ends the process. Bound only where a full runtime is linked.
pub const SYS_TERMINATE: usize = 3;

/// Number of entries in the table.
pub const ABI_TABLE_LEN: usize = 16;

/// The table of system-call handlers.
pub struct AbiTable {
    entries: [usize; 16],
}

impl View for AbiTable {
    type V = Seq<usize>;

    closed spec fn view(&self) -> Seq<usize> {
        self.entries@
    }
}

/// The table after the handlers of the known system calls were bound.
pub open spec fn with_known_calls(
    table: Seq<usize>,
    hello: usize,
    putchar: usize,
    terminate: Option<usize>,
) -> Seq<usize> {
    let bound = table.update(SYS_HELLO as int, hello).update(SYS_PUTCHAR as int, putchar);
    match terminate {
        Some(handle) => bound.update(SYS_TERMINATE as int, handle),
        None => bound,
    }
}

impl AbiTable {
    /// Creates a table in which no system call is bound.
    pub fn new() -> (r: Self)
        ensures
            r@.len() == ABI_TABLE_LEN,
            forall|num: int| 0 <= num < ABI_TABLE_LEN ==> r@[num] == 0,
    {
        Self { entries: [0; 16] }
    }

    /// The handler bound to system call `num`, if any: `None` for a number
    /// beyond the table and for an entry left at zero.
    pub fn handler(&self, num: usize) -> (r: Option<usize>)
        ensures
            r == if num < ABI_TABLE_LEN && self@[num as int] != 0 {
                Some(self@[num as int])
            } else {
                None
            },
            self@.len() == ABI_TABLE_LEN,
    {
        if num < ABI_TABLE_LEN && self.entries[num] != 0 {
            Some(self.entries[num])
        } else {
            None
        }
    }

    /// The entries, for handing the table's address to an application.
    pub fn entries(&self) -> (r: &[usize; 16])
        ensures
            r@ == self@,
    {
        &self.entries
    }
}

/// Binds system call `num` to the handler at address `handle`.
pub fn register_abi(table: &mut AbiTable, num: usize, handle: usize)
    requires
        num < ABI_TABLE_LEN,
    ensures
        final(table)@ == old(table)@.update(num as int, handle),
{
    table.entries[num] = handle;
}

/// Binds the known system calls: `SYS_HELLO` and `SYS_PUTCHAR` always,
/// `SYS_TERMINATE` where a handler for it is given.
pub fn register_multi_abi(
    table: &mut AbiTable,
    hello: usize,
    putchar: usize,
    terminate: Option<usize>,
)
    ensures
        final(table)@ == with_known_calls(old(table)@, hello, putchar, terminate),
{
    register_abi(table, SYS_HELLO, hello);
    register_abi(table, SYS_PUTCHAR, putchar);
    match terminate {
        Some(handle) => register_abi(table, SYS_TERMINATE, handle),
        None => {},
    }
}

} // verus!
