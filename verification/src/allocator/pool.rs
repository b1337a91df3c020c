//! The byte pool: a two-level segregated-fit allocator kept by `rlsf`.
//!
//! Nothing in this module is proved. What the pool holds is not modelled:
//! which block it hands out depends on all that was asked of it before.

use core::alloc::Layout;
use rlsf::Tlsf;
use vstd::arithmetic::power2::is_pow2;
use vstd::prelude::*;

verus! {

/// `rlsf::Tlsf`, carried through as it is.
#[verifier::external_type_specification]
#[verifier::external_body]
#[verifier::reject_recursive_types(FLBitmap)]
#[verifier::reject_recursive_types(SLBitmap)]
pub struct ExTlsf<'pool, FLBitmap, SLBitmap, const FLLEN: usize, const SLLEN: usize>(
    Tlsf<'pool, FLBitmap, SLBitmap, FLLEN, SLLEN>,
);

/// The pool of the early allocator: it can manage up to 8 GiB.
pub type BytePool = Tlsf<'static, u32, u32, 28, 32>;

/// A size and an alignment that describe a block: the alignment is a power
/// of two, and the size, rounded up to a multiple of it, is no more than
/// `isize::MAX`. As `isize::MAX + 1` is a multiple of every such alignment,
/// the second is to say that `size + align` is no more than that.
pub open spec fn valid_layout(size: nat, align: nat) -> bool {
    &&& is_pow2(align as int)
    &&& size + align <= isize::MAX + 1
}

/// `Tlsf::new`: a pool that has no memory yet.
#[verifier::external_body]
pub(crate) fn pool_new() -> (pool: BytePool) {
    Tlsf::new()
}

/// `Tlsf::allocate`, with the layout made by `Layout::from_size_align`:
/// the address of a block that the pool found for the request, or `None`
/// where it found none. The address of a block is never zero, and the pool
/// rounds it up to the alignment asked for.
#[verifier::external_body]
pub(crate) fn pool_allocate(pool: &mut BytePool, size: usize, align: usize) -> (block: Option<
    usize,
>)
    requires
        valid_layout(size as nat, align as nat),
    ensures
        block matches Some(addr) ==> addr != 0 && addr % align == 0,
{
    match Layout::from_size_align(size, align) {
        Ok(layout) => pool.allocate(layout).map(|ptr| ptr.as_ptr() as usize),
        Err(_) => None,
    }
}

} // verus!
