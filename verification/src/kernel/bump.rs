//! The bump allocator that backs the kernel's first heap.
//!
//! It hands out memory from one region by moving a cursor up. Single
//! allocations are never taken back: the region is free again as a whole
//! once the last live allocation is released.

use vstd::prelude::*;
use vstd::arithmetic::power2::is_pow2;
use crate::paging::{align_up, lemma_round_up, round_up};

verus! {

/// What a [`BumpAllocator`] holds: the region, the cursor and the number of
/// live allocations.
pub struct BumpState {
    pub heap_start: u64,
    pub heap_end: u64,
    pub next: u64,
    pub allocations: u64,
}

impl BumpState {
    /// The cursor lies in the region.
    pub open spec fn wf(self) -> bool {
        self.heap_start <= self.next <= self.heap_end
    }

    /// Where an allocation of the given alignment would start.
    pub open spec fn alloc_start(self, align: int) -> int {
        round_up(self.next as int, align)
    }

    /// Whether an allocation of `size` bytes with the given alignment still
    /// fits below the end of the region.
    pub open spec fn fits(self, size: int, align: int) -> bool {
        self.alloc_start(align) + size <= self.heap_end
    }

    /// What `allocate` returns.
    pub open spec fn alloc_result(self, size: int, align: int) -> Option<u64> {
        if self.fits(size, align) {
            Some(self.alloc_start(align) as u64)
        } else {
            None
        }
    }

    /// The state that `allocate` leaves.
    pub open spec fn after_alloc(self, size: int, align: int) -> BumpState {
        if self.fits(size, align) {
            BumpState {
                next: (self.alloc_start(align) + size) as u64,
                allocations: (self.allocations + 1) as u64,
                ..self
            }
        } else {
            self
        }
    }

    /// The state that `deallocate` leaves.
    pub open spec fn after_dealloc(self) -> BumpState {
        if self.allocations == 1 {
            BumpState { next: self.heap_start, allocations: 0, ..self }
        } else {
            BumpState { allocations: (self.allocations - 1) as u64, ..self }
        }
    }

    /// The state after `count` calls of `deallocate`.
    pub open spec fn after_deallocs(self, count: nat) -> BumpState
        decreases count,
    {
        if count == 0 {
            self
        } else {
            self.after_dealloc().after_deallocs((count - 1) as nat)
        }
    }
}

pub struct BumpAllocator {
    heap_start: u64,
    heap_end: u64,
    next: u64,
    allocations: u64,
}

impl View for BumpAllocator {
    type V = BumpState;

    closed spec fn view(&self) -> BumpState {
        BumpState {
            heap_start: self.heap_start,
            heap_end: self.heap_end,
            next: self.next,
            allocations: self.allocations,
        }
    }
}

impl BumpAllocator {
    #[verifier::type_invariant]
    spec fn cursor_in_region(self) -> bool {
        self.heap_start <= self.next <= self.heap_end
    }

    /// An allocator over the empty region at address 0: every allocation of
    /// one byte or more fails until `init` has given it a region.
    pub fn new() -> (allocator: BumpAllocator)
        ensures
            allocator@ == (BumpState { heap_start: 0, heap_end: 0, next: 0, allocations: 0 }),
    {
        BumpAllocator { heap_start: 0, heap_end: 0, next: 0, allocations: 0 }
    }

    /// Gives the allocator the region of `heap_size` bytes at `heap_start`
    /// and moves the cursor to its start. The count of live allocations
    /// stays.
    pub fn init(&mut self, heap_start: u64, heap_size: u64)
        requires
            heap_start + heap_size <= u64::MAX,
        ensures
            final(self)@ == (BumpState {
                heap_start,
                heap_end: (heap_start + heap_size) as u64,
                next: heap_start,
                allocations: old(self)@.allocations,
            }),
            final(self)@.wf(),
    {
        *self = BumpAllocator {
            heap_start,
            heap_end: heap_start + heap_size,
            next: heap_start,
            allocations: self.allocations,
        };
    }

    /// Reserves `size` bytes at the next address that is a multiple of
    /// `align`, which must be a power of two.
    ///
    /// Returns the address, or `None` where the bytes would pass the end of
    /// the region; then nothing changes.
    pub fn allocate(&mut self, size: usize, align: usize) -> (address: Option<u64>)
        requires
            is_pow2(align as int),
            old(self)@.allocations < u64::MAX,
        ensures
            old(self)@.wf(),
            address == old(self)@.alloc_result(size as int, align as int),
            final(self)@ == old(self)@.after_alloc(size as int, align as int),
            final(self)@.wf(),
            address matches Some(a) ==> a % (align as u64) == 0 && old(self)@.next <= a && a + size
                <= old(self)@.heap_end,
    {
        proof {
            use_type_invariant(&*self);
            vstd::arithmetic::power2::lemma_pow2_pos(0);
            assert(align > 0) by {
                reveal(is_pow2);
            }
        }
        let align = align as u64;
        let rest = self.next % align;
        if rest != 0 && align - rest > u64::MAX - self.next {
            return None;
        }
        let alloc_start = align_up(self.next, align);
        proof {
            lemma_round_up(self.next as int, align as int);
        }
        let alloc_end = match alloc_start.checked_add(size as u64) {
            Some(end) => end,
            None => { return None; },
        };
        if alloc_end > self.heap_end {
            None
        } else {
            self.next = alloc_end;
            self.allocations += 1;
            Some(alloc_start)
        }
    }

    /// Releases one allocation. With the last one the cursor goes back to
    /// the start of the region.
    pub fn deallocate(&mut self)
        requires
            old(self)@.allocations > 0,
        ensures
            final(self)@ == old(self)@.after_dealloc(),
            final(self)@.wf(),
    {
        proof {
            use_type_invariant(&*self);
        }
        self.allocations -= 1;
        if self.allocations == 0 {
            self.next = self.heap_start;
        }
    }

    /// Number of allocations that were made and not yet released.
    pub fn allocations(&self) -> (count: u64)
        ensures
            count == self@.allocations,
    {
        self.allocations
    }
}

/// Once every live allocation is released, the cursor is back at the start
/// of the region and no allocation is live.
pub proof fn lemma_release_all_resets(state: BumpState)
    requires
        state.allocations > 0,
    ensures
        state.after_deallocs(state.allocations as nat).next == state.heap_start,
        state.after_deallocs(state.allocations as nat).allocations == 0,
        state.after_deallocs(state.allocations as nat).heap_start == state.heap_start,
        state.after_deallocs(state.allocations as nat).heap_end == state.heap_end,
    decreases state.allocations,
{
    if state.allocations == 1 {
        assert(state.after_dealloc().after_deallocs(0) == state.after_dealloc());
    } else {
        lemma_release_all_resets(state.after_dealloc());
    }
}

/// With the cursor at the start of a region whose start is a multiple of
/// `align`, an allocation of the whole region succeeds and returns the
/// start.
pub proof fn lemma_whole_region_fits(state: BumpState, align: int)
    requires
        state.wf(),
        state.next == state.heap_start,
        align > 0,
        state.heap_start as int % align == 0,
    ensures
        state.alloc_result(state.heap_end - state.heap_start, align) == Some(state.heap_start),
        state.after_alloc(state.heap_end - state.heap_start, align).next == state.heap_end,
{
}

/// Allocations followed by the release of all that are live leave a region
/// that can be handed out again as a whole.
pub proof fn lemma_round_trip(state: BumpState, align: int)
    requires
        state.wf(),
        state.allocations > 0,
        align > 0,
        state.heap_start as int % align == 0,
    ensures
        state.after_deallocs(state.allocations as nat).alloc_result(
            state.heap_end - state.heap_start,
            align,
        ) == Some(state.heap_start),
{
    lemma_release_all_resets(state);
    lemma_whole_region_fits(state.after_deallocs(state.allocations as nat), align);
}

} // verus!
