//! The wire format of a flashed image.
//!
//! An application record is a 4-byte magic, an 8-byte size and that many
//! bytes of code. An image is either one record, or a container: a 4-byte
//! magic, a 4-byte count and that many records back to back. All integers
//! are big-endian.

use vstd::prelude::*;
use vstd::slice::slice_subrange;

verus! {

/// Magic number that opens an application record.
pub const APP_MAGIC: u32 = 0xDEAD_BEAF;

/// Magic number that opens a container of application records.
pub const CONTAINER_MAGIC: u32 = 0x89AB_CDEF;

/// Length of an application record's header: magic and size.
pub const HEADER_SIZE: usize = 12;

/// Length of a container's header: magic and count.
pub const CONTAINER_HEADER_SIZE: usize = 8;

/// Why an image cannot be loaded.
#[derive(Clone, Copy, Debug, PartialEq, Eq, Structural)]
pub enum LoadError {
    /// A record opens with this number in place of [`APP_MAGIC`].
    BadMagic(u32),
    /// The image ends before the header or the code that it announces.
    Truncated,
    /// The code is larger than the execution window it should go to.
    Oversized,
}

/// The number that `bytes` spell, most significant byte first.
pub open spec fn be_value(bytes: Seq<u8>) -> nat
    decreases bytes.len(),
{
    if bytes.len() == 0 {
        0
    } else {
        be_value(bytes.drop_last()) * 256 + bytes.last() as nat
    }
}

/// Four bytes spell `((b0 * 256 + b1) * 256 + b2) * 256 + b3`.
pub proof fn lemma_be_value_4(bytes: Seq<u8>)
    requires
        bytes.len() == 4,
    ensures
        be_value(bytes) == ((bytes[0] as nat * 256 + bytes[1] as nat) * 256 + bytes[2] as nat)
            * 256 + bytes[3] as nat,
{
    let b3 = bytes.drop_last();
    let b2 = b3.drop_last();
    let b1 = b2.drop_last();
    let b0 = b1.drop_last();
    assert(b0.len() == 0);
    assert(be_value(b0) == 0);
    assert(be_value(b1) == be_value(b0) * 256 + b1.last() as nat);
    assert(be_value(b2) == be_value(b1) * 256 + b2.last() as nat);
    assert(be_value(b3) == be_value(b2) * 256 + b3.last() as nat);
    assert(be_value(bytes) == be_value(b3) * 256 + bytes.last() as nat);
}

/// Eight bytes spell the value of the first four times `2^32`, plus the
/// value of the last four.
pub proof fn lemma_be_value_8(bytes: Seq<u8>)
    requires
        bytes.len() == 8,
    ensures
        be_value(bytes) == be_value(bytes.subrange(0, 4)) * 0x1_0000_0000 + be_value(
            bytes.subrange(4, 8),
        ),
{
    let hi = bytes.subrange(0, 4);
    let lo = bytes.subrange(4, 8);
    lemma_be_value_4(lo);
    let b7 = bytes.drop_last();
    let b6 = b7.drop_last();
    let b5 = b6.drop_last();
    let b4 = b5.drop_last();
    assert(b4 =~= hi);
    assert(be_value(b5) == be_value(b4) * 256 + b5.last() as nat);
    assert(be_value(b6) == be_value(b5) * 256 + b6.last() as nat);
    assert(be_value(b7) == be_value(b6) * 256 + b7.last() as nat);
    assert(be_value(bytes) == be_value(b7) * 256 + bytes.last() as nat);
}

/// Reads a big-endian 32-bit number.
pub fn bytes_to_u32(bytes: &[u8]) -> (r: u32)
    requires
        bytes@.len() == 4,
    ensures
        r == be_value(bytes@),
{
    proof {
        lemma_be_value_4(bytes@);
    }
    let b0: u32 = bytes[0] as u32;
    let b1: u32 = bytes[1] as u32;
    let b2: u32 = bytes[2] as u32;
    let b3: u32 = bytes[3] as u32;
    ((b0 * 256 + b1) * 256 + b2) * 256 + b3
}

/// Reads a big-endian 64-bit number.
pub fn bytes_to_u64(bytes: &[u8]) -> (r: u64)
    requires
        bytes@.len() == 8,
    ensures
        r == be_value(bytes@),
{
    proof {
        lemma_be_value_8(bytes@);
    }
    let hi: u32 = bytes_to_u32(slice_subrange(bytes, 0, 4));
    let lo: u32 = bytes_to_u32(slice_subrange(bytes, 4, 8));
    (hi as u64) * 0x1_0000_0000 + (lo as u64)
}

/// Reads a big-endian 64-bit number that fits the machine word.
pub fn bytes_to_usize(bytes: &[u8]) -> (r: usize)
    requires
        bytes@.len() == 8,
        be_value(bytes@) <= usize::MAX,
    ensures
        r == be_value(bytes@),
{
    bytes_to_u64(bytes) as usize
}

} // verus!
