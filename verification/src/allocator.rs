//! Physical-memory allocation: error values, alignment arithmetic and the
//! early allocator that serves pages and bytes from one extent.

pub mod bitmap;
pub mod early;
pub mod pool;

use vstd::arithmetic::power2::is_pow2;
use vstd::arithmetic::power2::lemma_pow2_unfold;
use vstd::arithmetic::power2::pow2;
use vstd::prelude::*;

verus! {

/// Why an allocator request was turned down.
#[derive(Clone, Copy, Debug, PartialEq, Eq, Structural)]
pub enum AllocError {
    /// The caller passed a bad alignment or a zero count.
    InvalidParam,
    /// Nothing that satisfies the request is left.
    NoMemory,
    /// The allocator does not offer this operation.
    Unsupported,
}

/// The result of an allocator request.
pub type AllocResult<T> = Result<T, AllocError>;

/// The largest multiple of `align` that is not above `pos`.
pub open spec fn align_down_spec(pos: int, align: int) -> int {
    pos - pos % align
}

/// The smallest multiple of `align` that is not below `pos`.
pub open spec fn align_up_spec(pos: int, align: int) -> int {
    if pos % align == 0 {
        pos
    } else {
        pos - pos % align + align
    }
}

/// What alignment means: the results are multiples of `align` that bracket
/// `pos` as tightly as possible.
pub proof fn lemma_align_bounds(pos: int, align: int)
    requires
        0 <= pos,
        0 < align,
    ensures
        align_down_spec(pos, align) % align == 0,
        align_up_spec(pos, align) % align == 0,
        align_down_spec(pos, align) == (pos / align) * align,
        pos - align < align_down_spec(pos, align) <= pos,
        pos <= align_up_spec(pos, align) < pos + align,
{
    let q = pos / align;
    let r = pos % align;
    assert(pos == align * q + r) by {
        vstd::arithmetic::div_mod::lemma_fundamental_div_mod(pos, align);
    }
    assert(align * q == q * align) by (nonlinear_arith);
    assert((q * align) % align == 0) by {
        vstd::arithmetic::div_mod::lemma_mod_multiples_basic(q, align);
    }
    assert(((q + 1) * align) % align == 0) by {
        vstd::arithmetic::div_mod::lemma_mod_multiples_basic(q + 1, align);
    }
    assert((q + 1) * align == q * align + align) by (nonlinear_arith);
}

/// Rounds `pos` down to a multiple of `align`.
pub fn align_down(pos: usize, align: usize) -> (r: usize)
    requires
        align > 0,
    ensures
        r == align_down_spec(pos as int, align as int),
{
    proof {
        vstd::arithmetic::div_mod::lemma_mod_decreases(pos as nat, align as nat);
    }
    pos - pos % align
}

/// Rounds `pos` up to a multiple of `align`.
pub fn align_up(pos: usize, align: usize) -> (r: usize)
    requires
        align > 0,
        align_up_spec(pos as int, align as int) <= usize::MAX,
    ensures
        r == align_up_spec(pos as int, align as int),
{
    let rem: usize = pos % align;
    proof {
        vstd::arithmetic::div_mod::lemma_mod_decreases(pos as nat, align as nat);
    }
    if rem == 0 {
        pos
    } else {
        pos - rem + align
    }
}

/// A power of two is positive.
pub proof fn lemma_pow2_positive(n: int)
    requires
        is_pow2(n),
    ensures
        n >= 1,
{
    reveal(is_pow2);
}

/// Halving an even positive number keeps it a power of two or not.
proof fn lemma_is_pow2_halve(n: int)
    requires
        n >= 2,
        n % 2 == 0,
    ensures
        is_pow2(n) == is_pow2(n / 2),
{
    reveal(is_pow2);
}

/// An odd number above one is no power of two.
proof fn lemma_odd_not_pow2(n: int)
    requires
        n > 1,
        n % 2 == 1,
    ensures
        !is_pow2(n),
{
    reveal(is_pow2);
}

/// The exponent `k` with `2^k == x`, if `x` is a power of two.
pub fn log2_exact(x: usize) -> (r: Option<u32>)
    ensures
        r.is_some() == is_pow2(x as int),
        r matches Some(k) ==> pow2(k as nat) == x && k < usize::BITS,
{
    if x == 0 {
        proof {
            reveal(is_pow2);
        }
        return None;
    }
    let mut rest: usize = x;
    let mut k: u32 = 0;
    proof {
        vstd::arithmetic::power2::lemma2_to64();
    }
    while rest % 2 == 0
        invariant
            rest > 0,
            rest * pow2(k as nat) == x,
            is_pow2(rest as int) == is_pow2(x as int),
            k < usize::BITS,
        decreases rest,
    {
        proof {
            lemma_is_pow2_halve(rest as int);
            lemma_pow2_unfold((k + 1) as nat);
            let half = (rest / 2) as int;
            let p = pow2(k as nat) as int;
            assert(rest == 2 * half);
            assert(half * (2 * p) == (2 * half) * p) by (nonlinear_arith);
            assert(k + 1 < usize::BITS) by {
                // rest >= 2, so x >= 2 * 2^k = 2^(k+1); x fits in usize
                assert(2 * p <= rest * p) by (nonlinear_arith)
                    requires
                        rest >= 2,
                        p >= 0,
                ;
                lemma_pow2_below_max((k + 1) as nat, x);
            }
        }
        rest = rest / 2;
        k = k + 1;
    }
    if rest == 1 {
        proof {
            reveal(is_pow2);
            assert(1 * pow2(k as nat) == pow2(k as nat)) by (nonlinear_arith);
        }
        Some(k)
    } else {
        proof {
            lemma_odd_not_pow2(rest as int);
        }
        None
    }
}

/// A power of two that fits in `usize` has an exponent below the word size.
proof fn lemma_pow2_below_max(e: nat, x: usize)
    requires
        pow2(e) <= x,
    ensures
        e < usize::BITS,
{
    if e >= usize::BITS {
        vstd::arithmetic::power2::lemma2_to64();
        if usize::BITS == 32 {
            if e > 32 {
                vstd::arithmetic::power2::lemma_pow2_strictly_increases(32, e);
            }
        } else {
            if e > 64 {
                vstd::arithmetic::power2::lemma_pow2_strictly_increases(64, e);
            }
        }
    }
}

} // verus!
