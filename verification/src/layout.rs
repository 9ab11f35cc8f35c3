//! Regions, errors and alignment rounding.

use vstd::arithmetic::div_mod::{lemma_fundamental_div_mod, lemma_fundamental_div_mod_converse};
use vstd::arithmetic::power::pow;
use vstd::arithmetic::power2::{
    is_pow2, is_pow2_equiv, is_pow2_exists, lemma_pow2_pos, lemma_pow2_strictly_increases, pow2,
};
use vstd::bits::{lemma_usize_low_bits_mask_is_mod, low_bits_mask};
use vstd::layout::{signed_int_min_max_values, unsigned_int_max_values};
use vstd::prelude::*;

verus! {

/// Why an allocation was refused.
#[derive(Clone, Copy, Debug, PartialEq, Eq, Structural)]
pub enum AllocError {
    /// The arena has no room left for the request, or the offsets of the
    /// request do not fit the machine word.
    OutOfSpace,
    /// The platform's allocation primitive refused the request.
    OutOfMemory,
}

/// A contiguous byte range: the address of its first byte and its exact length.
///
/// A region of an arena counts its address from the start of the arena's
/// buffer; a region of the heap carries the machine address.
#[derive(Clone, Copy, Debug, PartialEq, Eq, Structural)]
pub struct Region {
    pub base: usize,
    pub len: usize,
}

impl Region {
    /// The address one past the last byte.
    pub open spec fn end(self) -> int {
        self.base + self.len
    }

    /// Whether the byte at `address` belongs to the region.
    pub open spec fn contains(self, address: int) -> bool {
        self.base <= address < self.end()
    }

    /// Whether the two regions share no byte.
    pub open spec fn disjoint(self, other: Region) -> bool {
        forall|address: int| !(self.contains(address) && other.contains(address))
    }
}

/// Whether `address` is a multiple of `align`.
pub open spec fn is_aligned(address: int, align: int) -> bool {
    address % align == 0
}

/// `offset` rounded up to a multiple of `align`: as many whole steps of
/// `align` as cover `offset`.
pub open spec fn round_up(offset: int, align: int) -> int {
    ((offset + align - 1) / align) * align
}

/// `round_up(offset, align)` is the least multiple of `align` that is not
/// below `offset`.
pub proof fn lemma_round_up_is_least_multiple(offset: int, align: int)
    requires
        0 < align,
    ensures
        is_aligned(round_up(offset, align), align),
        offset <= round_up(offset, align) < offset + align,
        forall|m: int|
            #[trigger] is_aligned(m, align) && offset <= m ==> round_up(offset, align) <= m,
{
    let sum = offset + align - 1;
    let r = round_up(offset, align);
    lemma_fundamental_div_mod(sum, align);
    assert(r == align * (sum / align)) by (nonlinear_arith)
        requires
            r == (sum / align) * align,
    ;
    assert(r == sum - sum % align);
    lemma_fundamental_div_mod_converse(r, align, sum / align, 0);
    assert forall|m: int| #[trigger] is_aligned(m, align) && offset <= m implies r <= m by {
        lemma_fundamental_div_mod(m, align);
        // Both are multiples of `align`; `r` lies less than `align` above `offset`.
        if m < r {
            let qm = m / align;
            let qr = sum / align;
            assert(m == align * qm);
            assert(r == align * qr);
            assert(qm < qr) by (nonlinear_arith)
                requires
                    align * qm < align * qr,
                    0 < align,
            ;
            assert(align * qm + align <= align * qr) by (nonlinear_arith)
                requires
                    qm + 1 <= qr,
                    0 < align,
            ;
            assert(false);
        }
    }
}

/// A region that is aligned within its buffer is aligned in memory wherever
/// the buffer itself is aligned.
pub proof fn lemma_aligned_in_aligned_buffer(buffer: int, base: int, align: int)
    requires
        0 < align,
        is_aligned(buffer, align),
        is_aligned(base, align),
    ensures
        is_aligned(buffer + base, align),
{
    lemma_fundamental_div_mod(buffer, align);
    lemma_fundamental_div_mod(base, align);
    let q = buffer / align + base / align;
    assert(buffer + base == q * align + 0) by (nonlinear_arith)
        requires
            buffer == align * (buffer / align),
            base == align * (base / align),
            q == buffer / align + base / align,
    ;
    lemma_fundamental_div_mod_converse(buffer + base, align, q, 0);
}

/// Whatever is a multiple of `coarse` is a multiple of every `fine` that
/// divides `coarse`.
pub proof fn lemma_aligned_to_multiple(address: int, coarse: int, fine: int)
    requires
        0 < fine,
        0 < coarse,
        is_aligned(coarse, fine),
        is_aligned(address, coarse),
    ensures
        is_aligned(address, fine),
{
    lemma_fundamental_div_mod(address, coarse);
    lemma_fundamental_div_mod(coarse, fine);
    let q = (address / coarse) * (coarse / fine);
    assert(address == q * fine + 0) by (nonlinear_arith)
        requires
            address == coarse * (address / coarse),
            coarse == fine * (coarse / fine),
            q == (address / coarse) * (coarse / fine),
    ;
    lemma_fundamental_div_mod_converse(address, fine, q, 0);
}

/// A power of two that fits a machine word is `pow2(n)` for some `n` below the
/// word's width.
pub proof fn lemma_power_of_two_exponent(align: usize) -> (n: nat)
    requires
        is_pow2(align as int),
    ensures
        n < usize::BITS,
        pow2(n) == align,
        0 < align <= isize::MAX + 1,
{
    is_pow2_equiv(align as int);
    assert(is_pow2_exists(align as int));
    let n = choose|i: nat| pow(2, i) == align as int;
    unsigned_int_max_values();
    if n > usize::BITS {
        lemma_pow2_strictly_increases(usize::BITS as nat, n);
    }
    lemma_pow2_pos(n);
    signed_int_min_max_values();
    if n < usize::BITS - 1 {
        lemma_pow2_strictly_increases(n, (usize::BITS - 1) as nat);
    }
    n
}

/// For a power of two `align`, clearing the bits below `align` rounds `value`
/// down to a multiple of `align`.
pub proof fn lemma_clear_low_bits(value: usize, align: usize)
    requires
        is_pow2(align as int),
    ensures
        value & !((align - 1) as usize) == (value as int / align as int) * align,
{
    let n = lemma_power_of_two_exponent(align);
    let mask = (align - 1) as usize;
    assert(low_bits_mask(n) as usize == mask);
    lemma_usize_low_bits_mask_is_mod(value, n);
    assert(value & mask == value % align);
    assert(value & !mask == value - (value & mask)) by (bit_vector);
    lemma_fundamental_div_mod(value as int, align as int);
    assert((value as int / align as int) * align == align * (value as int / align as int))
        by (nonlinear_arith);
}

} // verus!
