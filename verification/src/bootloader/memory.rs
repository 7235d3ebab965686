//! The loader's two allocators: frames out of a pool that the firmware
//! reserved once, and pages out of the boot-information window.

use vstd::prelude::*;
use crate::memory_layout::{BOOTINFO_BASE, BOOTINFO_SIZE, BOOTINFO_TOP, PAGE_SIZE};
use crate::paging::{
    pages_for, pages_needed, physical, round_down, round_up, Page, PhysFrame, PHYS_ADDR_LIMIT,
};

verus! {

/// Hands out the frames of one contiguous pool, lowest first, each once.
///
/// Nothing is ever given back: the pool is abandoned with the loader.
#[derive(Debug)]
pub struct BootFrameAllocator {
    end: PhysFrame,
    next: PhysFrame,
}

impl BootFrameAllocator {
    #[verifier::type_invariant]
    spec fn well_formed(self) -> bool {
        self.next@ <= self.end@ && self.next.valid() && self.end.valid()
    }

    /// Start address of the frame that is handed out next.
    pub closed spec fn cursor(self) -> u64 {
        self.next@
    }

    /// First address behind the pool.
    pub closed spec fn pool_end(self) -> u64 {
        self.end@
    }

    /// Frames that are left.
    pub open spec fn remaining(self) -> int {
        (self.pool_end() - self.cursor()) / (PAGE_SIZE as int)
    }

    /// A pool of `num_frames` frames that starts with the frame holding
    /// `frames_addr`. `None` where the pool does not lie in physical memory.
    pub fn new(frames_addr: u64, num_frames: usize) -> (allocator: Option<BootFrameAllocator>)
        ensures
            allocator is Some <==> physical(frames_addr) && round_down(
                frames_addr as int,
                PAGE_SIZE as int,
            ) + num_frames * PAGE_SIZE < PHYS_ADDR_LIMIT,
            allocator matches Some(a) ==> {
                &&& a.cursor() == round_down(frames_addr as int, PAGE_SIZE as int)
                &&& a.pool_end() == a.cursor() + num_frames * PAGE_SIZE
                &&& a.remaining() == num_frames
            },
    {
        let next = match PhysFrame::containing_address(frames_addr) {
            Some(frame) => frame,
            None => { return None; },
        };
        let end = match next.offset(num_frames as u64) {
            Some(frame) => frame,
            None => { return None; },
        };
        Some(BootFrameAllocator { end, next })
    }

    /// The next frame of the pool, or `None` once the pool is used up.
    pub fn allocate_frame(&mut self) -> (frame: Option<PhysFrame>)
        ensures
            final(self).pool_end() == old(self).pool_end(),
            frame is Some <==> nth_frame(
                old(self).cursor() as int,
                old(self).pool_end() as int,
                0,
            ) is Some,
            old(self).cursor() == old(self).pool_end() ==> frame is None && final(self).cursor()
                == old(self).cursor(),
            old(self).cursor() != old(self).pool_end() ==> frame is Some && final(self).cursor()
                == old(self).cursor() + PAGE_SIZE,
            frame matches Some(f) ==> f@ == old(self).cursor() && f.valid() && f@ + PAGE_SIZE
                <= old(self).pool_end(),
    {
        proof {
            use_type_invariant(&*self);
        }
        if self.next.start_address() == self.end.start_address() {
            return None;
        }
        let frame = self.next;
        match frame.offset(1) {
            Some(next) => {
                self.next = next;
                Some(frame)
            },
            None => None,
        }
    }
}

/// What the call number `index` of `allocate_frame` returns, counted from a
/// pool with the cursor `cursor` and the end `pool_end`.
pub open spec fn nth_frame(cursor: int, pool_end: int, index: int) -> Option<int> {
    if cursor + index * PAGE_SIZE < pool_end {
        Some(cursor + index * PAGE_SIZE)
    } else {
        None
    }
}

/// The pool hands out its frames in strictly ascending order, each once,
/// and once it has said that it is used up it stays so.
pub proof fn lemma_frames_ascend(cursor: int, pool_end: int, i: int, j: int)
    requires
        0 <= i < j,
    ensures
        nth_frame(cursor, pool_end, j) is Some ==> nth_frame(cursor, pool_end, i) is Some
            && nth_frame(cursor, pool_end, i)->Some_0 < nth_frame(cursor, pool_end, j)->Some_0,
        nth_frame(cursor, pool_end, i) is None ==> nth_frame(cursor, pool_end, j) is None,
        nth_frame(cursor, pool_end, 1) == nth_frame(cursor + PAGE_SIZE, pool_end, 0),
{
    assert(i * PAGE_SIZE < j * PAGE_SIZE) by (nonlinear_arith)
        requires
            0 <= i < j,
            PAGE_SIZE == 0x1000,
    ;
}

/// Hands out runs of pages in the boot-information window, lowest first.
#[derive(Debug)]
pub struct BootInfoPageAllocator {
    next: Page,
}

impl BootInfoPageAllocator {
    #[verifier::type_invariant]
    spec fn well_formed(self) -> bool {
        BOOTINFO_BASE <= self.next@ <= BOOTINFO_TOP && self.next.valid()
    }

    /// Start address of the page that is handed out next.
    pub closed spec fn cursor(self) -> u64 {
        self.next@
    }

    pub fn new() -> (allocator: BootInfoPageAllocator)
        ensures
            allocator.cursor() == BOOTINFO_BASE,
    {
        match Page::containing_address(BOOTINFO_BASE) {
            Some(next) => BootInfoPageAllocator { next },
            None => vstd::pervasive::unreached(),
        }
    }

    /// Reserves the pages that `bytes` bytes take up.
    ///
    /// Returns the first of them and their number, and moves the cursor
    /// behind them. Where they would pass the end of the window it returns
    /// `None` and reserves nothing.
    pub fn allocate(&mut self, bytes: usize) -> (region: Option<(Page, u64)>)
        ensures
            BOOTINFO_BASE <= old(self).cursor() <= BOOTINFO_TOP,
            region is Some <==> old(self).cursor() + round_up(bytes as int, PAGE_SIZE as int)
                <= BOOTINFO_TOP,
            region is None ==> final(self).cursor() == old(self).cursor(),
            region matches Some((page, num_frames)) ==> {
                &&& page@ == old(self).cursor()
                &&& page.valid()
                &&& num_frames == pages_for(bytes as int)
                &&& final(self).cursor() == old(self).cursor() + num_frames * PAGE_SIZE
            },
    {
        proof {
            use_type_invariant(&*self);
        }
        if bytes as u64 > BOOTINFO_SIZE {
            return None;
        }
        let num_frames = pages_needed(bytes as u64);
        let page = self.next;
        if num_frames > (BOOTINFO_TOP - page.start_address()) / PAGE_SIZE {
            return None;
        }
        match page.offset(num_frames) {
            Some(next) => {
                self.next = next;
                Some((page, num_frames))
            },
            None => None,
        }
    }
}

/// The cursor of the boot-information window after regions of the given
/// sizes were reserved in turn, starting from `start`.
pub open spec fn cursor_after(start: int, sizes: Seq<usize>) -> int
    decreases sizes.len(),
{
    if sizes.len() == 0 {
        start
    } else {
        cursor_after(start, sizes.drop_last()) + pages_for(sizes.last() as int) * PAGE_SIZE
    }
}

/// The base of the region that the call number `index` returns.
pub open spec fn region_base(start: int, sizes: Seq<usize>, index: int) -> int {
    cursor_after(start, sizes.take(index))
}

/// First address behind the region that the call number `index` returns.
pub open spec fn region_top(start: int, sizes: Seq<usize>, index: int) -> int {
    region_base(start, sizes, index) + pages_for(sizes[index] as int) * PAGE_SIZE
}

/// Regions that are reserved one after the other never overlap, and a later
/// one lies above an earlier one: each starts where the one before it ends.
pub proof fn lemma_regions_ascend(start: int, sizes: Seq<usize>, i: int, j: int)
    requires
        0 <= i < j < sizes.len(),
    ensures
        region_base(start, sizes, i) <= region_top(start, sizes, i) <= region_base(start, sizes, j),
        region_top(start, sizes, j - 1) == region_base(start, sizes, j),
    decreases j - i,
{
    assert(sizes.take(j).drop_last() == sizes.take(j - 1));
    assert(sizes.take(j).last() == sizes[j - 1]);
    assert(sizes.take(i + 1).drop_last() == sizes.take(i));
    assert(sizes.take(i + 1).last() == sizes[i]);
    if i + 1 < j {
        lemma_regions_ascend(start, sizes, i, j - 1);
    }
}

} // verus!
