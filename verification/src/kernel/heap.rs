//! The bootstrap of the kernel heap: one frame, mapped at `HEAP_BASE`.

use vstd::prelude::*;
use crate::kernel::bump::{BumpAllocator, BumpState};
use crate::kernel::phys::{after_allocate, allocated, StackFrameAllocator};
use crate::memory_layout::{HEAP_BASE, HEAP_SIZE};
use crate::paging::{Page, PageFlags, PageMapping};

verus! {

/// The flags of the heap's mapping: data that is written, never code.
pub open spec fn heap_flags() -> PageFlags {
    PageFlags { writable: true, no_execute: true }
}

/// Takes one frame for the heap and gives the bump allocator the page at
/// `HEAP_BASE`.
///
/// Returns the mapping of that page to the frame, which the caller has to
/// install before the first allocation. Without a free frame it returns
/// `None` and changes nothing.
pub fn init(frames: &mut StackFrameAllocator, physmap: &[u64], heap: &mut BumpAllocator) -> (mapping:
    Option<PageMapping>)
    requires
        old(frames).wf(physmap@),
    ensures
        final(frames).wf(physmap@),
        final(frames)@ == after_allocate(old(frames)@),
        match mapping {
            Some(m) => {
                &&& allocated(old(frames)@) == Some(m.frame@)
                &&& m.page@ == HEAP_BASE
                &&& m.flags == heap_flags()
                &&& final(heap)@ == (BumpState {
                    heap_start: HEAP_BASE,
                    heap_end: (HEAP_BASE + HEAP_SIZE) as u64,
                    next: HEAP_BASE,
                    allocations: old(heap)@.allocations,
                })
            },
            None => allocated(old(frames)@) is None && final(heap)@ == old(heap)@,
        },
{
    let page = match Page::containing_address(HEAP_BASE) {
        Some(page) => page,
        None => vstd::pervasive::unreached(),
    };
    let frame = match frames.allocate_frame(physmap) {
        Some(frame) => frame,
        None => { return None; },
    };
    heap.init(HEAP_BASE, HEAP_SIZE);
    Some(PageMapping { page, frame, flags: PageFlags { writable: true, no_execute: true } })
}

} // verus!
