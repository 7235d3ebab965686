//! The parts of the kernel's address space besides the kernel image: the
//! frame buffer, the boot information, the stack, the loader's own pages
//! and the map of physical memory.
//!
//! Each function decides what is mapped where; the caller installs the
//! mappings in the page table, in the order in which the functions are
//! called.

use vstd::prelude::*;
use crate::boot_info::{FrameBuffer, FrameBufferInfo};
use crate::bootloader::memory::BootInfoPageAllocator;
use crate::memory_layout::{
    bootinfo_region, physmap_region, stack_region, Region, BOOTINFO_TOP,
    LARGE_PAGE_SIZE, PAGE_SIZE, PHYSMAP_BASE, PHYSMAP_SIZE, STACK_BASE, STACK_FRAMES, STACK_TOP,
};
use crate::paging::{
    align_down, area_fits, canonical, lemma_page_sizes_are_powers_of_two, lemma_round_down,
    map_area_and_ignore, page_reachable, pages_for, physical, physical_reachable, round_down,
    round_up, Page, PageFlags, PageMapping, PhysFrame, LOWER_HALF_TOP,
};

verus! {

/// A run of pages that is mapped to a run of frames of the same length.
#[derive(Clone, Copy, Debug, PartialEq, Eq, Structural)]
pub struct AreaMapping {
    /// Start of the first page.
    pub page: u64,
    /// Start of the first frame.
    pub frame: u64,
    pub count: u64,
    pub flags: PageFlags,
}

impl AreaMapping {
    /// The area starts at a page and at a frame.
    pub open spec fn valid(self) -> bool {
        &&& self.page % PAGE_SIZE == 0
        &&& canonical(self.page)
        &&& self.frame % PAGE_SIZE == 0
        &&& physical(self.frame)
    }

    /// The pages of the area lie in `region`.
    pub open spec fn within(self, region: Region) -> bool {
        region.base <= self.page && self.page + self.count * PAGE_SIZE <= region.top
    }

    /// The physical address that the area gives to the virtual address
    /// `addr`, if it maps that address.
    pub open spec fn translate(self, addr: int) -> Option<int> {
        if self.page <= addr < self.page + self.count * PAGE_SIZE {
            Some(self.frame + (addr - self.page))
        } else {
            None
        }
    }

    /// The single mapping number `index` of the area, if the area starts at
    /// a page and at a frame, has that many mappings, and page and frame of
    /// this one exist.
    pub fn nth(&self, index: u64) -> (mapping: Option<PageMapping>)
        ensures
            mapping is Some <==> self.valid() && index < self.count && page_reachable(
                self.page,
                index as int,
            ) && physical_reachable(self.frame, index as int),
            mapping matches Some(m) ==> {
                &&& m.page@ == self.page + index * PAGE_SIZE
                &&& m.frame@ == self.frame + index * PAGE_SIZE
                &&& m.flags == self.flags
                &&& self.translate(m.page@ as int) == Some(m.frame@ as int)
            },
    {
        if index >= self.count {
            return None;
        }
        let first_page = match Page::from_start_address(self.page) {
            Some(page) => page,
            None => { return None; },
        };
        let first_frame = match PhysFrame::from_start_address(self.frame) {
            Some(frame) => frame,
            None => { return None; },
        };
        match (first_page.offset(index), first_frame.offset(index)) {
            (Some(page), Some(frame)) => {
                assert(index * PAGE_SIZE < self.count * PAGE_SIZE) by (nonlinear_arith)
                    requires
                        index < self.count,
                        PAGE_SIZE > 0,
                ;
                Some(PageMapping { page, frame, flags: self.flags })
            },
            _ => None,
        }
    }

    /// The single mappings of the area, or `None` where it does not start at
    /// a page and at a frame, or runs out of the address space or of
    /// physical memory.
    pub fn mappings(&self) -> (area: Option<Vec<PageMapping>>)
        requires
            self.count <= usize::MAX,
        ensures
            area is Some <==> self.valid() && area_fits(self.page, self.frame, self.count),
            area matches Some(mappings) ==> {
                &&& mappings@.len() == self.count
                &&& forall|i: int|
                    0 <= i < self.count ==> {
                        &&& (#[trigger] mappings@[i]).page@ == self.page + i * PAGE_SIZE
                        &&& mappings@[i].frame@ == self.frame + i * PAGE_SIZE
                        &&& mappings@[i].flags == self.flags
                    }
            },
    {
        let page = match Page::from_start_address(self.page) {
            Some(page) => page,
            None => { return None; },
        };
        let frame = match PhysFrame::from_start_address(self.frame) {
            Some(frame) => frame,
            None => { return None; },
        };
        map_area_and_ignore(page, frame, self.count, self.flags)
    }
}

/// The single mappings of an area give every address in it the physical
/// address that the area as a whole gives it.
pub proof fn lemma_area_translate(area: AreaMapping, mappings: Seq<PageMapping>, addr: int)
    requires
        mappings.len() == area.count,
        forall|i: int|
            0 <= i < area.count ==> (#[trigger] mappings[i]).page@ == area.page + i * PAGE_SIZE
                && mappings[i].frame@ == area.frame + i * PAGE_SIZE,
        area.translate(addr) is Some,
    ensures
        ({
            let i = (addr - area.page) / (PAGE_SIZE as int);
            &&& 0 <= i < area.count
            &&& mappings[i].page@ <= addr < mappings[i].page@ + PAGE_SIZE
            &&& area.translate(addr) == Some(mappings[i].frame@ + (addr - mappings[i].page@))
        }),
{
    let offset = addr - area.page;
    let i = offset / (PAGE_SIZE as int);
    assert(i < area.count) by (nonlinear_arith)
        requires
            0 <= offset < area.count * PAGE_SIZE,
            i == offset / (PAGE_SIZE as int),
            PAGE_SIZE == 0x1000,
    ;
    assert(mappings[i].page@ == area.page + i * PAGE_SIZE);
}

/// Data that is written and never run.
pub open spec fn data_flags() -> PageFlags {
    PageFlags { writable: true, no_execute: true }
}

/// Maps the display's pixel memory, `buffer_size` bytes at the physical
/// address `buffer_addr`, into the boot-information window.
///
/// Returns what the boot information says of the frame buffer, and the
/// area to map. Returns `None`, and reserves nothing, where `buffer_addr`
/// is no physical address or the window has no room left.
pub fn map_framebuffer(
    bootinfo_allocator: &mut BootInfoPageAllocator,
    buffer_addr: u64,
    buffer_size: usize,
    info: FrameBufferInfo,
) -> (mapped: Option<(FrameBuffer, AreaMapping)>)
    ensures
        mapped is Some <==> physical(buffer_addr) && old(bootinfo_allocator).cursor() + round_up(
            buffer_size as int,
            PAGE_SIZE as int,
        ) <= BOOTINFO_TOP,
        mapped is None ==> final(bootinfo_allocator).cursor() == old(bootinfo_allocator).cursor(),
        mapped matches Some((frame_buffer, area)) ==> {
            &&& frame_buffer == (FrameBuffer {
                buffer_base: old(bootinfo_allocator).cursor(),
                buffer_size,
                info,
            })
            &&& area == (AreaMapping {
                page: old(bootinfo_allocator).cursor(),
                frame: round_down(buffer_addr as int, PAGE_SIZE as int) as u64,
                count: pages_for(buffer_size as int) as u64,
                flags: data_flags(),
            })
            &&& area.valid()
            &&& area.within(bootinfo_region())
            &&& final(bootinfo_allocator).cursor() == old(bootinfo_allocator).cursor() + area.count
                * PAGE_SIZE
        },
{
    let frame = match PhysFrame::containing_address(buffer_addr) {
        Some(frame) => frame,
        None => { return None; },
    };
    let (base, num_frames) = match bootinfo_allocator.allocate(buffer_size) {
        Some(region) => region,
        None => { return None; },
    };
    let area = AreaMapping {
        page: base.start_address(),
        frame: frame.start_address(),
        count: num_frames,
        flags: PageFlags { writable: true, no_execute: true },
    };
    let frame_buffer = FrameBuffer { buffer_base: base.start_address(), buffer_size, info };
    Some((frame_buffer, area))
}

/// Maps the boot information, `size` bytes that lie in the frames from
/// `frame` on, into the boot-information window.
///
/// Returns the area to map; the boot information is found at its first
/// page. Returns `None`, and reserves nothing, where the window has no
/// room left.
pub fn map_bootinfo(bootinfo_allocator: &mut BootInfoPageAllocator, frame: PhysFrame, size: usize) -> (area:
    Option<AreaMapping>)
    ensures
        area is Some <==> old(bootinfo_allocator).cursor() + round_up(
            size as int,
            PAGE_SIZE as int,
        ) <= BOOTINFO_TOP,
        area is None ==> final(bootinfo_allocator).cursor() == old(bootinfo_allocator).cursor(),
        area matches Some(a) ==> {
            &&& a == (AreaMapping {
                page: old(bootinfo_allocator).cursor(),
                frame: frame@,
                count: pages_for(size as int) as u64,
                flags: data_flags(),
            })
            &&& a.valid()
            &&& a.within(bootinfo_region())
            &&& final(bootinfo_allocator).cursor() == old(bootinfo_allocator).cursor() + a.count
                * PAGE_SIZE
        },
{
    let (boot_info_addr, num_frames) = match bootinfo_allocator.allocate(size) {
        Some(region) => region,
        None => { return None; },
    };
    Some(
        AreaMapping {
            page: boot_info_addr.start_address(),
            frame: frame.start_address(),
            count: num_frames,
            flags: PageFlags { writable: true, no_execute: true },
        },
    )
}

/// Maps the kernel's first stack, `STACK_FRAMES` frames from `frame` on,
/// directly above the guard page.
///
/// Returns the area to map and the first stack pointer: the highest
/// address in the stack that is a multiple of 8.
pub fn map_stack(frame: PhysFrame) -> (mapped: (AreaMapping, u64))
    ensures
        mapped.0 == (AreaMapping {
            page: STACK_BASE,
            frame: frame@,
            count: STACK_FRAMES,
            flags: PageFlags { writable: true, no_execute: false },
        }),
        mapped.0.valid(),
        mapped.0.within(stack_region()),
        mapped.0.page + mapped.0.count * PAGE_SIZE == STACK_TOP,
        mapped.1 == STACK_TOP - 8,
{
    let area = AreaMapping {
        page: STACK_BASE,
        frame: frame.start_address(),
        count: STACK_FRAMES,
        flags: PageFlags { writable: true, no_execute: false },
    };
    proof {
        lemma_page_sizes_are_powers_of_two();
    }
    (area, align_down(STACK_TOP - 1, 8))
}

/// What the firmware's memory map says a range of memory is used for.
#[derive(Clone, Copy, Debug, PartialEq, Eq, Structural)]
pub enum RegionKind {
    /// Code of the loader.
    LoaderCode,
    /// Data of the loader.
    LoaderData,
    /// Anything else.
    Other,
}

/// An entry of the firmware's memory map, as far as the loader reads it.
#[derive(Clone, Copy, Debug, PartialEq, Eq, Structural)]
pub struct MemoryDescriptor {
    pub ty: RegionKind,
    pub phys_start: u64,
    pub page_count: u64,
}

impl MemoryDescriptor {
    /// First address behind the entry.
    pub open spec fn end(self) -> int {
        self.phys_start + self.page_count * PAGE_SIZE
    }
}

/// The flags under which the loader's own pages stay mapped: its code may
/// run and not be written, its data may be written and not run.
pub open spec fn loader_flags(kind: RegionKind) -> PageFlags {
    PageFlags { writable: kind != RegionKind::LoaderCode, no_execute: kind != RegionKind::LoaderCode }
}

/// The mapping that keeps an entry of the loader where it is: each of its
/// pages is mapped to the frame of the same address.
pub open spec fn loader_area(entry: MemoryDescriptor) -> AreaMapping {
    AreaMapping {
        page: round_down(entry.phys_start as int, PAGE_SIZE as int) as u64,
        frame: round_down(entry.phys_start as int, PAGE_SIZE as int) as u64,
        count: entry.page_count,
        flags: loader_flags(entry.ty),
    }
}

/// The mappings of the loader's entries of `memory_map`, in their order.
pub open spec fn loader_areas(memory_map: Seq<MemoryDescriptor>) -> Seq<AreaMapping>
    decreases memory_map.len(),
{
    if memory_map.len() == 0 {
        Seq::empty()
    } else if memory_map.last().ty == RegionKind::Other {
        loader_areas(memory_map.drop_last())
    } else {
        loader_areas(memory_map.drop_last()).push(loader_area(memory_map.last()))
    }
}

/// Each of the loader's entries starts at an address that is both a
/// physical and a canonical virtual address.
pub open spec fn loader_mappable(memory_map: Seq<MemoryDescriptor>) -> bool {
    forall|i: int|
        0 <= i < memory_map.len() && (#[trigger] memory_map[i]).ty != RegionKind::Other
            ==> memory_map[i].phys_start < LOWER_HALF_TOP
}

/// The loader's entry `entry` can stay mapped at its own address.
pub open spec fn entry_mappable(entry: MemoryDescriptor) -> bool {
    entry.ty != RegionKind::Other ==> entry.phys_start < LOWER_HALF_TOP
}

/// Decides about one entry of the firmware's memory map: the area that
/// keeps an entry of the loader mapped where it is, and `None` for any
/// other entry. An entry of the loader that cannot be mapped at its own
/// address is an error.
pub fn map_loader_entry(entry: &MemoryDescriptor) -> (area: Result<Option<AreaMapping>, ()>)
    ensures
        area is Ok <==> entry_mappable(*entry),
        area matches Ok(kept) ==> kept == if entry.ty == RegionKind::Other {
            None
        } else {
            Some(loader_area(*entry))
        },
        area matches Ok(Some(a)) ==> a.valid(),
{
    let flags = match entry.ty {
        RegionKind::LoaderCode => PageFlags { writable: false, no_execute: false },
        RegionKind::LoaderData => PageFlags { writable: true, no_execute: true },
        RegionKind::Other => { return Ok(None); },
    };
    proof {
        lemma_round_down(entry.phys_start as int, PAGE_SIZE as int);
    }
    let page = Page::containing_address(entry.phys_start);
    let frame = PhysFrame::containing_address(entry.phys_start);
    match (page, frame) {
        (Some(page), Some(frame)) => Ok(
            Some(
                AreaMapping {
                    page: page.start_address(),
                    frame: frame.start_address(),
                    count: entry.page_count,
                    flags,
                },
            ),
        ),
        _ => Err(()),
    }
}

/// Keeps the loader's code and data mapped where they are, so that the
/// loader goes on running after the switch to the new page table.
///
/// Returns the areas to map, or `None` where one of them cannot be mapped
/// at its own address.
pub fn map_loader(memory_map: &[MemoryDescriptor]) -> (areas: Option<Vec<AreaMapping>>)
    ensures
        areas is Some <==> loader_mappable(memory_map@),
        areas matches Some(a) ==> a@ == loader_areas(memory_map@) && forall|i: int|
            0 <= i < a@.len() ==> (#[trigger] a@[i]).valid(),
{
    let mut areas: Vec<AreaMapping> = Vec::new();
    let mut i: usize = 0;
    assert(memory_map@.take(0).len() == 0);
    while i < memory_map.len()
        invariant
            i <= memory_map@.len(),
            loader_mappable(memory_map@.take(i as int)),
            areas@ == loader_areas(memory_map@.take(i as int)),
            forall|k: int| 0 <= k < areas@.len() ==> (#[trigger] areas@[k]).valid(),
        decreases memory_map@.len() - i,
    {
        proof {
            assert(memory_map@.take(i + 1).drop_last() == memory_map@.take(i as int));
            assert(memory_map@.take(i + 1).last() == memory_map@[i as int]);
        }
        match map_loader_entry(&memory_map[i]) {
            Ok(Some(area)) => {
                areas.push(area);
            },
            Ok(None) => {},
            Err(_) => {
                assert(!loader_mappable(memory_map@)) by {
                    assert(memory_map@[i as int].phys_start >= LOWER_HALF_TOP);
                }
                return None;
            },
        }
        proof {
            assert forall|k: int|
                0 <= k < i + 1 && (#[trigger] memory_map@.take(i + 1)[k]).ty
                    != RegionKind::Other implies memory_map@.take(i + 1)[k].phys_start
                < LOWER_HALF_TOP by {
                if k < i {
                    assert(memory_map@.take(i as int)[k] == memory_map@[k]);
                }
            }
        }
        i += 1;
    }
    proof {
        assert(memory_map@.take(i as int) == memory_map@);
    }
    Some(areas)
}

/// The highest end of an entry of `memory_map`.
pub open spec fn phys_top(memory_map: Seq<MemoryDescriptor>) -> int
    decreases memory_map.len(),
{
    if memory_map.len() == 0 {
        0
    } else {
        let rest = phys_top(memory_map.drop_last());
        if memory_map.last().end() > rest {
            memory_map.last().end()
        } else {
            rest
        }
    }
}

/// The map of physical memory: the first `frames` large frames, the frame
/// number `k` mapped to the large page at `PHYSMAP_BASE + k * LARGE_PAGE_SIZE`.
#[derive(Clone, Copy, Debug, PartialEq, Eq, Structural)]
pub struct PhysMap {
    pub frames: u64,
}

/// A request to map one large page to one large frame.
#[derive(Clone, Copy, Debug, PartialEq, Eq, Structural)]
pub struct LargeMapping {
    /// Start of the page.
    pub page: u64,
    /// Start of the frame.
    pub frame: u64,
    pub flags: PageFlags,
}

impl PhysMap {
    /// The map lies in the window that the layout keeps for it.
    pub open spec fn valid(self) -> bool {
        self.frames * LARGE_PAGE_SIZE <= PHYSMAP_SIZE
    }

    /// The physical address `phys` is mapped.
    pub open spec fn covers(self, phys: int) -> bool {
        covered(self.frames as int, phys)
    }

    /// The virtual address at which the map shows the physical address
    /// `phys`.
    pub open spec fn translate(self, phys: int) -> int {
        PHYSMAP_BASE + phys
    }

    /// The mapping of the large frame number `index`, if the map has that
    /// many frames and lies in its window.
    pub fn nth(&self, index: u64) -> (mapping: Option<LargeMapping>)
        ensures
            mapping is Some <==> self.valid() && index < self.frames,
            mapping matches Some(m) ==> {
                &&& m == (LargeMapping {
                    page: (PHYSMAP_BASE + index * LARGE_PAGE_SIZE) as u64,
                    frame: (index * LARGE_PAGE_SIZE) as u64,
                    flags: data_flags(),
                })
                &&& m.page % LARGE_PAGE_SIZE == 0
                &&& m.frame % LARGE_PAGE_SIZE == 0
                &&& canonical(m.page)
                &&& physical(m.frame)
                &&& self.covers(m.frame as int)
                &&& m.page == self.translate(m.frame as int)
                &&& physmap_region().base <= m.page
                &&& m.page + LARGE_PAGE_SIZE <= physmap_region().top
            },
    {
        if self.frames > PHYSMAP_SIZE / LARGE_PAGE_SIZE || index >= self.frames {
            return None;
        }
        let frame = index * LARGE_PAGE_SIZE;
        Some(
            LargeMapping {
                page: PHYSMAP_BASE + frame,
                frame,
                flags: PageFlags { writable: true, no_execute: true },
            },
        )
    }
}

/// The physical address `phys` lies in one of the first `frames` large
/// frames.
pub open spec fn covered(frames: int, phys: int) -> bool {
    0 <= phys < frames * LARGE_PAGE_SIZE
}

/// Number of large frames from physical address 0 up to and with the one
/// that holds `top`.
pub open spec fn large_frames_up_to(top: int) -> int {
    round_down(top, LARGE_PAGE_SIZE as int) / (LARGE_PAGE_SIZE as int) + 1
}

/// The higher of `top` and the end of `entry`, if it lies in the window
/// that the layout keeps for the map of physical memory.
pub fn raise_top(top: u64, entry: &MemoryDescriptor) -> (raised: Option<u64>)
    ensures
        raised is Some <==> top < PHYSMAP_SIZE && entry.end() < PHYSMAP_SIZE,
        raised matches Some(t) ==> t == if entry.end() > top {
            entry.end()
        } else {
            top as int
        },
{
    if top >= PHYSMAP_SIZE || entry.page_count >= PHYSMAP_SIZE / PAGE_SIZE || entry.phys_start
        >= PHYSMAP_SIZE || entry.phys_start + entry.page_count * PAGE_SIZE >= PHYSMAP_SIZE {
        return None;
    }
    let end = entry.phys_start + entry.page_count * PAGE_SIZE;
    if end > top {
        Some(end)
    } else {
        Some(top)
    }
}

impl PhysMap {
    /// The map of all large frames from physical address 0 up to and with
    /// the one that holds `top`, if they fit into the window that the
    /// layout keeps for them.
    pub fn up_to(top: u64) -> (map: Option<PhysMap>)
        ensures
            map is Some <==> large_frames_up_to(top as int) * LARGE_PAGE_SIZE <= PHYSMAP_SIZE,
            map matches Some(m) ==> m.frames == large_frames_up_to(top as int) && m.valid(),
    {
        proof {
            lemma_page_sizes_are_powers_of_two();
            lemma_round_down(top as int, LARGE_PAGE_SIZE as int);
        }
        if top >= PHYSMAP_SIZE {
            return None;
        }
        let frames = align_down(top, LARGE_PAGE_SIZE) / LARGE_PAGE_SIZE + 1;
        Some(PhysMap { frames })
    }
}

/// Maps all of physical memory that `memory_map` speaks of, in large pages
/// from `PHYSMAP_BASE` on: every large frame from physical address 0 up to
/// and with the one that holds the highest end of an entry.
///
/// Returns `None` for an empty map, and where the frames do not fit into
/// the window that the layout keeps for them.
pub fn map_physmap(memory_map: &[MemoryDescriptor]) -> (map: Option<PhysMap>)
    ensures
        map is Some <==> memory_map@.len() > 0 && large_frames_up_to(phys_top(memory_map@))
            * LARGE_PAGE_SIZE <= PHYSMAP_SIZE,
        map matches Some(m) ==> m.frames == large_frames_up_to(phys_top(memory_map@)) && m.valid(),
{
    if memory_map.len() == 0 {
        return None;
    }
    let mut top: u64 = 0;
    let mut i: usize = 0;
    assert(memory_map@.take(0).len() == 0);
    while i < memory_map.len()
        invariant
            i <= memory_map@.len(),
            top == phys_top(memory_map@.take(i as int)),
            top < PHYSMAP_SIZE,
        decreases memory_map@.len() - i,
    {
        proof {
            assert(memory_map@.take(i + 1).drop_last() == memory_map@.take(i as int));
            assert(memory_map@.take(i + 1).last() == memory_map@[i as int]);
        }
        top = match raise_top(top, &memory_map[i]) {
            Some(raised) => raised,
            None => {
                proof {
                    assert(phys_top(memory_map@.take(i + 1)) >= PHYSMAP_SIZE);
                    lemma_phys_top_grows(memory_map@, i + 1);
                    lemma_round_down(phys_top(memory_map@), LARGE_PAGE_SIZE as int);
                }
                return None;
            },
        };
        i += 1;
    }
    proof {
        assert(memory_map@.take(i as int) == memory_map@);
        lemma_round_down(top as int, LARGE_PAGE_SIZE as int);
    }
    PhysMap::up_to(top)
}

/// The highest end among the first entries of a map is at most the highest
/// end among all.
proof fn lemma_phys_top_grows(memory_map: Seq<MemoryDescriptor>, upto: int)
    requires
        0 <= upto <= memory_map.len(),
    ensures
        phys_top(memory_map.take(upto)) <= phys_top(memory_map),
    decreases memory_map.len(),
{
    if upto == memory_map.len() {
        assert(memory_map.take(upto) == memory_map);
    } else {
        assert(memory_map.drop_last().take(upto) == memory_map.take(upto));
        lemma_phys_top_grows(memory_map.drop_last(), upto);
    }
}

/// The map of physical memory reaches every address that the memory map
/// speaks of: the large page of the highest end of an entry is mapped, and
/// with it every address below, each at `PHYSMAP_BASE` plus itself.
pub proof fn lemma_physmap_covers(memory_map: Seq<MemoryDescriptor>, index: int, phys: int)
    requires
        0 <= index < memory_map.len(),
        0 <= phys <= memory_map[index].end(),
    ensures
        memory_map[index].end() <= phys_top(memory_map),
        covered(large_frames_up_to(phys_top(memory_map)), phys),
        covered(large_frames_up_to(phys_top(memory_map)), phys_top(memory_map)),
        covered(
            large_frames_up_to(phys_top(memory_map)),
            round_down(phys_top(memory_map), LARGE_PAGE_SIZE as int),
        ),
{
    lemma_end_below_top(memory_map, index);
    lemma_round_down(phys_top(memory_map), LARGE_PAGE_SIZE as int);
}

proof fn lemma_end_below_top(memory_map: Seq<MemoryDescriptor>, index: int)
    requires
        0 <= index < memory_map.len(),
    ensures
        0 <= memory_map[index].end() <= phys_top(memory_map),
    decreases memory_map.len(),
{
    if index < memory_map.len() - 1 {
        lemma_end_below_top(memory_map.drop_last(), index);
    }
}

} // verus!
