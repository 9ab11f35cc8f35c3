//! The native-heap allocators: what they ask of the platform's allocation
//! primitives, and what they make of the answers.
//!
//! The primitives themselves work on raw memory and are called by whoever
//! drives these allocators. Every decision around the calls is taken here: the
//! alignment that is asked for, when an answer counts as a refusal, how much
//! of a new block is zeroed, and how much of an old block moves to a new one.
//! An address is a plain integer, and 0 is the null address.

use crate::layout::{
    is_aligned, lemma_aligned_to_multiple, lemma_power_of_two_exponent, AllocError, Region,
};
use vstd::arithmetic::div_mod::lemma_fundamental_div_mod_converse;
use vstd::arithmetic::power2::{
    is_pow2, lemma2_to64, lemma_pow2_adds, lemma_pow2_strictly_increases, pow2,
};
use vstd::layout::{layout_of_primitives, size_of, usize_size_pow2};
use vstd::prelude::*;

verus! {

/// What the aligned allocation primitive is asked for.
#[derive(Clone, Copy, Debug, PartialEq, Eq, Structural)]
pub struct AlignedRequest {
    pub alignment: usize,
    pub size: usize,
}

/// What the aligned allocation primitive answered: its status, 0 for
/// success, and the address of the block. A primitive that reports no status
/// answers with status 0.
#[derive(Clone, Copy, Debug, PartialEq, Eq, Structural)]
pub struct Reply {
    pub status: i32,
    pub block: usize,
}

impl Reply {
    /// Whether the primitive handed out a block.
    pub open spec fn granted(self) -> bool {
        self.status == 0 && self.block != 0
    }
}

/// The move of a block's contents that a reallocation asks for: copy `len`
/// bytes from `from` to `to`, then release the block at `from`.
#[derive(Clone, Copy, Debug, PartialEq, Eq, Structural)]
pub struct Relocation {
    pub from: usize,
    pub to: usize,
    pub len: usize,
}

/// The alignment that is asked of the aligned primitive for a caller's
/// `align`: the caller's, but no less than the size of a machine word.
pub open spec fn required_alignment(align: usize) -> nat {
    if align >= size_of::<usize>() {
        align as nat
    } else {
        size_of::<usize>()
    }
}

/// The lesser of two lengths.
pub open spec fn shorter(a: usize, b: usize) -> usize {
    if a <= b {
        a
    } else {
        b
    }
}

/// For a power of two `align`, the required alignment is a power of two, a
/// multiple of the machine word's size, and a multiple of `align`.
pub proof fn lemma_required_alignment(align: usize)
    requires
        is_pow2(align as int),
    ensures
        is_pow2(required_alignment(align) as int),
        is_aligned(required_alignment(align) as int, size_of::<usize>() as int),
        is_aligned(required_alignment(align) as int, align as int),
        align <= required_alignment(align) <= usize::MAX,
{
    broadcast use layout_of_primitives;

    usize_size_pow2();
    let word = size_of::<usize>();
    assert(word == 4 || word == 8);
    let n = lemma_power_of_two_exponent(align);
    if align >= word {
        // align = 2^n with 2^n >= 2^k = word, so align = 2^(n - k) * word.
        let k: nat = if word == 4 {
            2
        } else {
            3
        };
        assert(pow2(k) == word) by {
            lemma2_to64();
        }
        if n < k {
            lemma_pow2_strictly_increases(n, k);
        }
        lemma_pow2_adds((n - k) as nat, k);
        lemma_fundamental_div_mod_converse(align as int, word as int, pow2((n - k) as nat) as int, 0);
        lemma_fundamental_div_mod_converse(align as int, align as int, 1, 0);
    } else {
        // align is 1, 2 or 4, and each divides the word's size.
        reveal_with_fuel(is_pow2, 4);
        assert(align == 1 || align == 2 || align == 4);
    }
}

/// A block at a multiple of the required alignment is at a multiple of the
/// caller's `align`.
pub proof fn lemma_block_is_aligned(block: usize, align: usize)
    requires
        is_pow2(align as int),
        is_aligned(block as int, required_alignment(align) as int),
    ensures
        is_aligned(block as int, align as int),
{
    lemma_required_alignment(align);
    lemma_power_of_two_exponent(align);
    lemma_aligned_to_multiple(block as int, required_alignment(align) as int, align as int);
}

impl Relocation {
    /// The bytes of the new block once the move is done, given the bytes of
    /// the old block and of the new one before it: the first `len` bytes are
    /// the old block's, the rest is as it was.
    pub open spec fn moved(self, old_bytes: Seq<u8>, new_bytes: Seq<u8>) -> Seq<u8> {
        old_bytes.subrange(0, self.len as int) + new_bytes.subrange(
            self.len as int,
            new_bytes.len() as int,
        )
    }
}

/// The move that a reallocation asks for stays inside both blocks, fills the
/// new block to its own length, and carries the first bytes of the old block
/// over unchanged, as many as both blocks hold.
pub proof fn lemma_relocation_keeps_prefix(
    old: Region,
    new_size: usize,
    block: usize,
    old_bytes: Seq<u8>,
    new_bytes: Seq<u8>,
)
    requires
        old_bytes.len() == old.len,
        new_bytes.len() == new_size,
    ensures
        ({
            let relocation = Relocation {
                from: old.base,
                to: block,
                len: shorter(old.len, new_size),
            };
            &&& relocation.len <= old.len
            &&& relocation.len <= new_size
            &&& relocation.moved(old_bytes, new_bytes).len() == new_size
            &&& forall|i: int|
                0 <= i < old.len && i < new_size ==> relocation.moved(old_bytes, new_bytes)[i]
                    == old_bytes[i]
            &&& forall|i: int|
                old.len <= i < new_size ==> relocation.moved(old_bytes, new_bytes)[i]
                    == new_bytes[i]
        }),
{
}

/// Reads the answer of the aligned primitive: the block's address where the
/// primitive reported success and the address is not null, and
/// [`AllocError::OutOfMemory`] otherwise.
pub fn allocate_memory(reply: Reply) -> (result: Result<usize, AllocError>)
    ensures
        result == if reply.granted() {
            Ok::<usize, AllocError>(reply.block)
        } else {
            Err::<usize, AllocError>(AllocError::OutOfMemory)
        },
{
    if reply.status != 0 {
        return Err(AllocError::OutOfMemory);
    }
    if reply.block == 0 {
        Err(AllocError::OutOfMemory)
    } else {
        Ok(reply.block)
    }
}

/// The part of a new block that is filled with zeros: all `size` bytes of
/// it, or nothing where there is no block.
fn zeroed_region(size: usize, block: usize) -> (fill: Option<Region>)
    ensures
        fill == if block != 0 {
            Some(Region { base: block, len: size })
        } else {
            None
        },
{
    if block != 0 {
        Some(Region { base: block, len: size })
    } else {
        None
    }
}

/// The move from an old block to its replacement: as many bytes as both
/// blocks hold, or nothing where there is no replacement.
fn relocation(old: Region, new_size: usize, block: usize) -> (relocation: Option<Relocation>)
    ensures
        relocation == if block != 0 {
            Some(Relocation { from: old.base, to: block, len: shorter(old.len, new_size) })
        } else {
            None
        },
{
    if block != 0 {
        let len = if old.len <= new_size {
            old.len
        } else {
            new_size
        };
        Some(Relocation { from: old.base, to: block, len })
    } else {
        None
    }
}

/// An allocator on the platform's aligned allocation primitive.
///
/// It has no state: every block is the caller's until the caller releases it,
/// once, through the platform's release primitive.
pub struct CAllocator;

impl CAllocator {
    /// What is asked of the aligned primitive for `size` bytes at `align`:
    /// exactly `size` bytes, at the caller's alignment or the size of a
    /// machine word, whichever is greater.
    pub fn request(&self, size: usize, align: usize) -> (request: AlignedRequest)
        ensures
            request.size == size,
            request.alignment == required_alignment(align),
            is_pow2(align as int) ==> {
                &&& is_pow2(request.alignment as int)
                &&& is_aligned(request.alignment as int, size_of::<usize>() as int)
                &&& is_aligned(request.alignment as int, align as int)
            },
    {
        proof {
            if is_pow2(align as int) {
                lemma_required_alignment(align);
            }
        }
        let word = core::mem::size_of::<usize>();
        let alignment = if align >= word {
            align
        } else {
            word
        };
        AlignedRequest { alignment, size }
    }

    /// The outcome of a request for `size` bytes, given the primitive's
    /// answer: a region of exactly `size` bytes at the block's address, or
    /// [`AllocError::OutOfMemory`] where the primitive refused.
    pub fn allocate(&self, size: usize, reply: Reply) -> (result: Result<Region, AllocError>)
        ensures
            result == if reply.granted() {
                Ok::<Region, AllocError>(Region { base: reply.block, len: size })
            } else {
                Err::<Region, AllocError>(AllocError::OutOfMemory)
            },
    {
        match allocate_memory(reply) {
            Ok(block) => Ok(Region { base: block, len: size }),
            Err(error) => Err(error),
        }
    }

    /// [`CAllocator::allocate`] for callers that want a bare address: the
    /// block's address, or the null address where the primitive refused.
    pub fn alloc_raw(&self, reply: Reply) -> (block: usize)
        ensures
            block == if reply.granted() {
                reply.block
            } else {
                0
            },
    {
        match allocate_memory(reply) {
            Ok(block) => block,
            Err(_) => 0,
        }
    }

    /// What is zeroed after a request for `size` zeroed bytes was answered
    /// with `block`: the whole block, or nothing where `block` is null.
    pub fn alloc_zeroed(&self, size: usize, block: usize) -> (fill: Option<Region>)
        ensures
            fill == if block != 0 {
                Some(Region { base: block, len: size })
            } else {
                None
            },
    {
        zeroed_region(size, block)
    }

    /// What follows once the replacement for the block `old` has been asked
    /// for, `new_size` bytes at the old alignment, and `block` came back.
    ///
    /// Where `block` is null nothing is moved or released: the old block
    /// stays as it was. Otherwise the first bytes of the old block move to
    /// the new one, as many as both hold, and the old block is released.
    pub fn realloc(&self, old: Region, new_size: usize, block: usize) -> (relocation: Option<
        Relocation,
    >)
        ensures
            relocation == if block != 0 {
                Some(Relocation { from: old.base, to: block, len: shorter(old.len, new_size) })
            } else {
                None
            },
            relocation matches Some(moved) ==> moved.len <= old.len && moved.len <= new_size,
    {
        relocation(old, new_size, block)
    }
}

/// An allocator on the platform's plain allocation primitive, which takes a
/// size and promises no alignment beyond its own default.
pub struct RawCAllocator;

impl RawCAllocator {
    /// The outcome of a request for `size` bytes that the plain primitive
    /// answered with `block`: a region of exactly `size` bytes there, or
    /// [`AllocError::OutOfMemory`] where `block` is null.
    pub fn allocate(&self, size: usize, block: usize) -> (result: Result<Region, AllocError>)
        ensures
            result == if block != 0 {
                Ok::<Region, AllocError>(Region { base: block, len: size })
            } else {
                Err::<Region, AllocError>(AllocError::OutOfMemory)
            },
    {
        if block != 0 {
            Ok(Region { base: block, len: size })
        } else {
            Err(AllocError::OutOfMemory)
        }
    }

    /// What is zeroed after a request for `size` zeroed bytes was answered
    /// with `block`: the whole block, or nothing where `block` is null.
    pub fn alloc_zeroed(&self, size: usize, block: usize) -> (fill: Option<Region>)
        ensures
            fill == if block != 0 {
                Some(Region { base: block, len: size })
            } else {
                None
            },
    {
        zeroed_region(size, block)
    }

    /// What follows once the replacement for the block `old` has been asked
    /// for, `new_size` bytes, and `block` came back.
    ///
    /// Where `block` is null nothing is moved or released: the old block
    /// stays as it was. Otherwise the first bytes of the old block move to
    /// the new one, as many as both hold, and the old block is released.
    pub fn realloc(&self, old: Region, new_size: usize, block: usize) -> (relocation: Option<
        Relocation,
    >)
        ensures
            relocation == if block != 0 {
                Some(Relocation { from: old.base, to: block, len: shorter(old.len, new_size) })
            } else {
                None
            },
            relocation matches Some(moved) ==> moved.len <= old.len && moved.len <= new_size,
    {
        relocation(old, new_size, block)
    }
}

} // verus!
