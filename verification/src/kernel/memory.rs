//! The kernel's memory at start-up: the frame allocator is filled from the
//! loader's memory map, then the heap gets its first page.

use vstd::prelude::*;
use crate::boot_info::{MemoryMap, MemoryType};
use crate::kernel::bump::{BumpAllocator, BumpState};
use crate::kernel::heap;
use crate::kernel::phys;
use crate::kernel::phys::{
    after_allocate, allocated, frame_in, is_link_word, is_sound, lemma_sound_map, link_index,
    sound_map, stack_after, StackFrameAllocator,
};
use crate::memory_layout::{HEAP_BASE, HEAP_SIZE};
use crate::paging::{PageMapping, PHYS_ADDR_LIMIT};

verus! {

/// The allocators that the kernel keeps, each behind a lock of its own.
pub struct KernelMemory {
    pub frames: StackFrameAllocator,
    pub heap: BumpAllocator,
}

/// Builds the frame allocator from `map` and sets up the heap. `physmap` is
/// physical memory.
///
/// Beside the allocators it returns the mapping of the heap's page, which
/// the caller has to install; `None` where the map gave no frame for it.
/// The caller answers for the map as for [`phys::init`].
pub fn init(map: &MemoryMap, physmap: &mut [u64]) -> (result: (KernelMemory, Option<PageMapping>))
    requires
        forall|i: int|
            0 <= i < map@.len() && (#[trigger] map@[i]).memory_type == MemoryType::Conventional
                ==> map@[i].end() < PHYS_ADDR_LIMIT,
        stack_after(map@, Seq::empty()).no_duplicates(),
        forall|i: int|
            0 <= i < stack_after(map@, Seq::empty()).len() ==> link_index(
                #[trigger] stack_after(map@, Seq::empty())[i],
            ) < old(physmap)@.len(),
    ensures
        result.0.frames.wf(final(physmap)@),
        result.0.frames@ == after_allocate(stack_after(map@, Seq::empty())),
        final(physmap)@.len() == old(physmap)@.len(),
        forall|index: int|
            0 <= index < old(physmap)@.len() && !#[trigger] is_link_word(
                stack_after(map@, Seq::empty()),
                index,
            ) ==> final(physmap)@[index] == old(physmap)@[index],
        match result.1 {
            Some(m) => {
                &&& allocated(stack_after(map@, Seq::empty())) == Some(m.frame@)
                &&& m.page@ == HEAP_BASE
                &&& m.flags == heap::heap_flags()
                &&& result.0.heap@ == (BumpState {
                    heap_start: HEAP_BASE,
                    heap_end: (HEAP_BASE + HEAP_SIZE) as u64,
                    next: HEAP_BASE,
                    allocations: 0,
                })
            },
            None => {
                &&& stack_after(map@, Seq::empty()).len() == 0
                &&& result.0.heap@ == (BumpState {
                    heap_start: 0,
                    heap_end: 0,
                    next: 0,
                    allocations: 0,
                })
            },
        },
{
    let mut frames = StackFrameAllocator::new();
    let mut bump = BumpAllocator::new();
    assert(frames.wf(physmap@));
    phys::init(&mut frames, map, physmap);
    let mapping = heap::init(&mut frames, physmap, &mut bump);
    (KernelMemory { frames, heap: bump }, mapping)
}

/// As [`init`], for any map: checks first that the frames of the map can be
/// handed out from `physmap`, and returns `None`, with nothing changed,
/// where they cannot.
pub fn checked_init(map: &MemoryMap, physmap: &mut [u64]) -> (result: Option<
    (KernelMemory, Option<PageMapping>),
>)
    ensures
        result is Some <==> sound_map(map@, old(physmap)@.len()),
        result is None ==> final(physmap)@ == old(physmap)@,
        result matches Some((kernel, mapping)) ==> {
            &&& kernel.frames.wf(final(physmap)@)
            &&& kernel.frames@ == after_allocate(stack_after(map@, Seq::empty()))
            &&& final(physmap)@.len() == old(physmap)@.len()
            &&& forall|index: int|
                0 <= index < old(physmap)@.len() && !#[trigger] is_link_word(
                    stack_after(map@, Seq::empty()),
                    index,
                ) ==> final(physmap)@[index] == old(physmap)@[index]
            &&& match mapping {
                Some(m) => {
                    &&& allocated(stack_after(map@, Seq::empty())) == Some(m.frame@)
                    &&& m.page@ == HEAP_BASE
                    &&& m.flags == heap::heap_flags()
                    &&& kernel.heap@ == (BumpState {
                        heap_start: HEAP_BASE,
                        heap_end: (HEAP_BASE + HEAP_SIZE) as u64,
                        next: HEAP_BASE,
                        allocations: 0,
                    })
                },
                None => {
                    &&& stack_after(map@, Seq::empty()).len() == 0
                    &&& kernel.heap@ == (BumpState {
                        heap_start: 0,
                        heap_end: 0,
                        next: 0,
                        allocations: 0,
                    })
                },
            }
        },
{
    if !is_sound(map, physmap.len()) {
        return None;
    }
    proof {
        lemma_sound_map(map@, physmap@.len());
        assert forall|i: int| 0 <= i < stack_after(map@, Seq::empty()).len() implies link_index(
            #[trigger] stack_after(map@, Seq::empty())[i],
        ) < physmap@.len() by {
            assert(frame_in(stack_after(map@, Seq::empty())[i], physmap@.len()));
        }
    }
    Some(init(map, physmap))
}

} // verus!
