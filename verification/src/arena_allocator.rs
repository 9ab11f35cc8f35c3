//! The bump arena: one buffer of fixed capacity and a cursor that only moves
//! forward until the arena is reset.

use crate::layout::{
    is_aligned, lemma_clear_low_bits, lemma_power_of_two_exponent,
    lemma_round_up_is_least_multiple, round_up, AllocError, Region,
};
use vstd::arithmetic::power2::is_pow2;
use vstd::prelude::*;

verus! {

/// A request for memory: so many bytes, at a multiple of `align`.
pub struct Request {
    pub size: nat,
    pub align: nat,
}

/// The arena as a mathematical value.
pub struct ArenaState {
    /// The length of the buffer.
    pub capacity: nat,
    /// The first byte of the buffer that no region has claimed.
    pub cursor: nat,
    /// The regions handed out since the arena was made or last reset, oldest
    /// first.
    pub live: Seq<Region>,
}

impl ArenaState {
    /// What holds of every arena: the cursor stays inside the buffer, every
    /// live region lies below the cursor, and the live regions follow one
    /// another without sharing a byte.
    pub open spec fn wf(self) -> bool {
        &&& self.cursor <= self.capacity <= isize::MAX
        &&& forall|i: int|
            0 <= i < self.live.len() ==> (#[trigger] self.live[i]).end() <= self.cursor
        &&& forall|i: int, j: int|
            0 <= i < j < self.live.len() ==> (#[trigger] self.live[i]).end() <= (
            #[trigger] self.live[j]).base
    }

    /// An arena of the given capacity from which nothing has been taken.
    pub open spec fn fresh(capacity: nat) -> ArenaState {
        ArenaState { capacity, cursor: 0, live: Seq::empty() }
    }

    /// Where a region aligned to `align` would start.
    pub open spec fn aligned_cursor(self, align: nat) -> int {
        round_up(self.cursor as int, align as int)
    }

    /// Whether `size` bytes aligned to `align` still fit.
    pub open spec fn fits(self, size: nat, align: nat) -> bool {
        self.aligned_cursor(align) + size <= self.capacity
    }

    /// The region that a fitting request receives.
    pub open spec fn placement(self, size: nat, align: nat) -> Region {
        Region { base: self.aligned_cursor(align) as usize, len: size as usize }
    }

    /// What a request is answered with: its region if it fits, and
    /// [`AllocError::OutOfSpace`] if it does not.
    pub open spec fn outcome(self, size: nat, align: nat) -> Result<Region, AllocError> {
        if self.fits(size, align) {
            Ok(self.placement(size, align))
        } else {
            Err(AllocError::OutOfSpace)
        }
    }

    /// The arena after a request: the cursor moves past the new region if the
    /// request fits, and nothing changes if it does not.
    pub open spec fn allocate(self, size: nat, align: nat) -> ArenaState {
        if self.fits(size, align) {
            ArenaState {
                capacity: self.capacity,
                cursor: (self.aligned_cursor(align) + size) as nat,
                live: self.live.push(self.placement(size, align)),
            }
        } else {
            self
        }
    }

    /// The arena after a reset: same buffer, nothing claimed.
    pub open spec fn reset(self) -> ArenaState {
        ArenaState::fresh(self.capacity)
    }

    /// The arena after a sequence of requests, each served in turn.
    pub open spec fn run(self, requests: Seq<Request>) -> ArenaState
        decreases requests.len(),
    {
        if requests.len() == 0 {
            self
        } else {
            let last = requests.last();
            self.run(requests.drop_last()).allocate(last.size, last.align)
        }
    }

    /// The answers to a sequence of requests, each served in turn.
    pub open spec fn outcomes(self, requests: Seq<Request>) -> Seq<Result<Region, AllocError>>
        decreases requests.len(),
    {
        if requests.len() == 0 {
            Seq::empty()
        } else {
            let last = requests.last();
            self.outcomes(requests.drop_last()).push(
                self.run(requests.drop_last()).outcome(last.size, last.align),
            )
        }
    }
}

impl ArenaState {
    /// A region starts at a multiple of its alignment, at or above the cursor
    /// and less than `align` above it.
    pub proof fn lemma_placement_is_aligned(self, size: nat, align: nat)
        requires
            0 < align,
        ensures
            is_aligned(self.aligned_cursor(align), align as int),
            self.cursor <= self.aligned_cursor(align) < self.cursor + align,
            self.wf() && self.fits(size, align) ==> {
                &&& self.placement(size, align).base == self.aligned_cursor(align)
                &&& self.placement(size, align).len == size
                &&& self.placement(size, align).end() == self.allocate(size, align).cursor
            },
    {
        lemma_round_up_is_least_multiple(self.cursor as int, align as int);
    }

    /// A request leaves a well-formed arena well-formed, whether it fits or
    /// not.
    pub proof fn lemma_allocate_preserves_wf(self, size: nat, align: nat)
        requires
            self.wf(),
            0 < align,
        ensures
            self.allocate(size, align).wf(),
            self.allocate(size, align).capacity == self.capacity,
            self.cursor <= self.allocate(size, align).cursor,
    {
        self.lemma_placement_is_aligned(size, align);
        if self.fits(size, align) {
            let next = self.allocate(size, align);
            assert forall|i: int| 0 <= i < next.live.len() implies (#[trigger] next.live[i]).end()
                <= next.cursor by {
                if i < self.live.len() {
                    assert(next.live[i] == self.live[i]);
                }
            }
            assert forall|i: int, j: int| 0 <= i < j < next.live.len() implies (
            #[trigger] next.live[i]).end() <= (#[trigger] next.live[j]).base by {
                assert(next.live[i] == self.live[i]);
                if j < self.live.len() {
                    assert(next.live[j] == self.live[j]);
                }
            }
        }
    }

    /// Every alignment among the requests is positive.
    pub open spec fn all_aligned(requests: Seq<Request>) -> bool {
        forall|k: int| 0 <= k < requests.len() ==> 0 < (#[trigger] requests[k]).align
    }

    /// A sequence of requests leaves a well-formed arena well-formed, keeps
    /// its capacity, and never moves the cursor back.
    pub proof fn lemma_run_preserves_wf(self, requests: Seq<Request>)
        requires
            self.wf(),
            Self::all_aligned(requests),
        ensures
            self.run(requests).wf(),
            self.run(requests).capacity == self.capacity,
            self.cursor <= self.run(requests).cursor,
        decreases requests.len(),
    {
        if requests.len() > 0 {
            let earlier = requests.drop_last();
            assert forall|k: int| 0 <= k < earlier.len() implies 0 < (
            #[trigger] earlier[k]).align by {
                assert(earlier[k] == requests[k]);
            }
            self.lemma_run_preserves_wf(earlier);
            let last = requests.last();
            self.run(earlier).lemma_allocate_preserves_wf(last.size, last.align);
        }
    }

    /// Whatever requests an arena has served since it was made or last
    /// reset, the regions it handed out come in address order, share no byte,
    /// and lie inside the buffer below the cursor.
    pub proof fn lemma_regions_in_order(self, requests: Seq<Request>, i: int, j: int)
        requires
            self.wf(),
            Self::all_aligned(requests),
            0 <= i < j < self.run(requests).live.len(),
        ensures
            self.run(requests).live[i].base <= self.run(requests).live[j].base,
            self.run(requests).live[i].end() <= self.run(requests).live[j].base,
            self.run(requests).live[i].disjoint(self.run(requests).live[j]),
            self.run(requests).live[j].end() <= self.run(requests).cursor <= self.capacity,
    {
        self.lemma_run_preserves_wf(requests);
    }

    /// A fresh arena serves one request for its whole capacity, from its
    /// first byte on, and then refuses a single byte. Where the capacity is
    /// not zero it refuses the whole capacity a second time.
    pub proof fn lemma_capacity_boundary(capacity: nat)
        requires
            capacity <= isize::MAX,
        ensures
            Self::fresh(capacity).fits(capacity, 1),
            Self::fresh(capacity).placement(capacity, 1) == (Region {
                base: 0,
                len: capacity as usize,
            }),
            Self::fresh(capacity).allocate(capacity, 1).cursor == capacity,
            !Self::fresh(capacity).allocate(capacity, 1).fits(1, 1),
            0 < capacity ==> !Self::fresh(capacity).allocate(capacity, 1).fits(capacity, 1),
    {
        let fresh = Self::fresh(capacity);
        fresh.lemma_placement_is_aligned(capacity, 1);
        fresh.allocate(capacity, 1).lemma_placement_is_aligned(1, 1);
    }

    /// A sequence of requests keeps the capacity of the arena.
    pub proof fn lemma_run_keeps_capacity(self, requests: Seq<Request>)
        ensures
            self.run(requests).capacity == self.capacity,
        decreases requests.len(),
    {
        if requests.len() > 0 {
            self.lemma_run_keeps_capacity(requests.drop_last());
        }
    }

    /// A reset arena is a fresh arena of the same capacity, whatever it served
    /// before: it answers any sequence of requests as the fresh arena does,
    /// region for region. So an arena that has served a sequence of requests
    /// from fresh answers the same sequence again after a reset with the same
    /// regions and the same refusals.
    pub proof fn lemma_reset_replays(self, requests: Seq<Request>)
        ensures
            self.reset() == Self::fresh(self.capacity),
            self.reset().outcomes(requests) == Self::fresh(self.capacity).outcomes(requests),
            self.reset().run(requests) == Self::fresh(self.capacity).run(requests),
            self == Self::fresh(self.capacity) ==> {
                &&& self.run(requests).reset().outcomes(requests) == self.outcomes(requests)
                &&& self.run(requests).reset().run(requests) == self.run(requests)
            },
    {
        self.lemma_run_keeps_capacity(requests);
    }

    /// An arena always has room for no bytes at alignment 1; the region is
    /// empty and the cursor stays where it is.
    pub proof fn lemma_zero_size_fits(self)
        requires
            self.wf(),
        ensures
            self.fits(0, 1),
            self.placement(0, 1) == (Region { base: self.cursor as usize, len: 0 }),
            self.allocate(0, 1).cursor == self.cursor,
    {
        self.lemma_placement_is_aligned(0, 1);
    }

    /// No arena has room for `usize::MAX` bytes, at any alignment: the request
    /// is refused and the arena stays as it was.
    pub proof fn lemma_overflow_guard(self, align: nat)
        requires
            self.wf(),
            0 < align,
        ensures
            !self.fits(usize::MAX as nat, align),
            self.allocate(usize::MAX as nat, align) == self,
    {
        self.lemma_placement_is_aligned(usize::MAX as nat, align);
    }
}

/// A bump allocator over one buffer of fixed capacity.
///
/// The arena keeps the books of the buffer: its length and how much of it is
/// taken. It hands out regions whose addresses count from the start of the
/// buffer, and takes them all back at once on [`ArenaAllocator::reset`].
/// Single regions are never released.
pub struct ArenaAllocator {
    capacity: usize,
    offset: usize,
    live: Ghost<Seq<Region>>,
}

impl View for ArenaAllocator {
    type V = ArenaState;

    closed spec fn view(&self) -> ArenaState {
        ArenaState { capacity: self.capacity as nat, cursor: self.offset as nat, live: self.live@ }
    }
}

impl Default for ArenaAllocator {
    /// The arena over an empty buffer.
    fn default() -> (arena: Self)
        ensures
            arena@ == ArenaState::fresh(0),
            arena@.wf(),
    {
        ArenaAllocator::new(0)
    }
}

impl ArenaAllocator {
    #[verifier::type_invariant]
    spec fn inv(&self) -> bool {
        self@.wf()
    }

    /// Makes an arena over a buffer of `bytes` bytes, with nothing claimed.
    ///
    /// No buffer is longer than `isize::MAX` bytes, so no arena is either.
    #[must_use]
    pub fn new(bytes: usize) -> (arena: Self)
        requires
            bytes <= isize::MAX,
        ensures
            arena@ == ArenaState::fresh(bytes as nat),
            arena@.wf(),
    {
        ArenaAllocator { capacity: bytes, offset: 0, live: Ghost(Seq::empty()) }
    }

    /// Takes every region back: the next request starts at the beginning of
    /// the buffer again. The bytes of the buffer are left as they are.
    ///
    /// Regions handed out before the reset must not be used after it: later
    /// requests receive the same addresses.
    pub fn reset(&mut self)
        ensures
            final(self)@ == old(self)@.reset(),
            final(self)@.wf(),
    {
        proof {
            use_type_invariant(&*self);
        }
        self.live = Ghost(Seq::empty());
        self.offset = 0;
    }

    /// Rounds `offset` up to the next multiple of `align`, a power of two.
    ///
    /// The sum of the two must fit the machine word.
    pub fn align_up(offset: usize, align: usize) -> (aligned: usize)
        requires
            is_pow2(align as int),
            offset + align <= usize::MAX,
        ensures
            aligned == round_up(offset as int, align as int),
    {
        proof {
            lemma_power_of_two_exponent(align);
            lemma_clear_low_bits((offset + align - 1) as usize, align);
        }
        (offset + align - 1) & !(align - 1)
    }

    /// The length of the buffer in bytes. It never changes.
    pub fn capacity(&self) -> (bytes: usize)
        ensures
            bytes == self@.capacity,
            self@.wf(),
    {
        proof {
            use_type_invariant(self);
        }
        self.capacity
    }

    /// The cursor: how many bytes from the start of the buffer are taken.
    pub fn offset(&self) -> (cursor: usize)
        ensures
            cursor == self@.cursor,
            self@.wf(),
    {
        proof {
            use_type_invariant(self);
        }
        self.offset
    }

    /// Claims `size` bytes at the next multiple of `align`, which must be a
    /// power of two.
    ///
    /// On success the region starts at the cursor rounded up to `align`, and
    /// the cursor moves to the region's end. A request that does not fit the
    /// rest of the buffer is refused with [`AllocError::OutOfSpace`] and
    /// changes nothing. These are the only two outcomes.
    pub fn allocate(&mut self, size: usize, align: usize) -> (result: Result<Region, AllocError>)
        requires
            is_pow2(align as int),
        ensures
            final(self)@ == old(self)@.allocate(size as nat, align as nat),
            final(self)@.wf(),
            result == old(self)@.outcome(size as nat, align as nat),
            result matches Ok(region) ==> {
                &&& is_aligned(region.base as int, align as int)
                &&& old(self)@.cursor <= region.base < old(self)@.cursor + align
                &&& region.len == size
                &&& region.end() == final(self)@.cursor
                &&& final(self)@.cursor <= final(self)@.capacity
                &&& final(self)@.live == old(self)@.live.push(region)
            },
            result is Err ==> *final(self) == *old(self),
    {
        proof {
            use_type_invariant(&*self);
            lemma_power_of_two_exponent(align);
            lemma_round_up_is_least_multiple(self.offset as int, align as int);
        }
        let aligned_offset = Self::align_up(self.offset, align);
        let end = match aligned_offset.checked_add(size) {
            Some(end) => end,
            None => {
                return Err(AllocError::OutOfSpace);
            },
        };
        if end > self.capacity {
            return Err(AllocError::OutOfSpace);
        }
        let region = Region { base: aligned_offset, len: size };
        self.offset = end;
        self.live = Ghost(self.live@.push(region));
        Ok(region)
    }

    /// Releases nothing: the arena takes regions back only on
    /// [`ArenaAllocator::reset`].
    pub fn deallocate(&mut self, region: Region, align: usize)
        ensures
            *final(self) == *old(self),
    {
    }

    /// [`ArenaAllocator::allocate`] for callers that want a bare address: the
    /// region's address on success, `None` where the request is refused.
    pub fn alloc_raw(&mut self, size: usize, align: usize) -> (address: Option<usize>)
        requires
            is_pow2(align as int),
        ensures
            final(self)@ == old(self)@.allocate(size as nat, align as nat),
            final(self)@.wf(),
            address == if old(self)@.fits(size as nat, align as nat) {
                Some(old(self)@.placement(size as nat, align as nat).base)
            } else {
                None
            },
    {
        match self.allocate(size, align) {
            Ok(region) => Some(region.base),
            Err(_) => None,
        }
    }

    /// Releases nothing, as [`ArenaAllocator::deallocate`] does.
    pub fn dealloc(&mut self, address: usize, size: usize, align: usize)
        ensures
            *final(self) == *old(self),
    {
    }
}

} // verus!
