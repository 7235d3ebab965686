//! The fixed plan of the kernel's virtual address space.
//!
//! Loader and kernel are built against the same numbers: the loader maps
//! each region where the kernel expects to find it.

use vstd::prelude::*;

verus! {

/// Size of a page and of a frame, in bytes.
pub const PAGE_SIZE: u64 = 0x1000;

/// Size of a large page, as used for the map of physical memory.
pub const LARGE_PAGE_SIZE: u64 = 0x20_0000;

/// Start of the kernel's half of the address space (-512 GiB).
pub const KERNEL_SPACE_BASE: u64 = 0xFFFF_FF80_0000_0000;

/// Where the kernel image is linked (-2 GiB).
pub const KERNEL_BASE: u64 = 0xFFFF_FFFF_8000_0000;

/// All of physical memory is mapped from here on, at `physical + PHYSMAP_BASE`.
pub const PHYSMAP_BASE: u64 = KERNEL_SPACE_BASE;

pub const PHYSMAP_SIZE: u64 = 0x40_0000_0000;

pub const PHYSMAP_TOP: u64 = PHYSMAP_BASE + PHYSMAP_SIZE;

/// One page that is never mapped, directly below the stack.
pub const STACK_GUARD: u64 = 0xFFFF_FFC0_0000_0000;

pub const STACK_BASE: u64 = STACK_GUARD + PAGE_SIZE;

pub const STACK_FRAMES: u64 = 20;

pub const STACK_SIZE: u64 = STACK_FRAMES * PAGE_SIZE;

pub const STACK_TOP: u64 = STACK_BASE + STACK_SIZE;

/// The window that holds the boot information, the frame buffer and the
/// console font.
pub const BOOTINFO_BASE: u64 = 0xFFFF_FFC0_8000_0000;

pub const BOOTINFO_SIZE: u64 = 0x4000_0000;

pub const BOOTINFO_TOP: u64 = BOOTINFO_BASE + BOOTINFO_SIZE;

/// Where the kernel's first heap page is mapped.
pub const HEAP_BASE: u64 = 0xFFFF_FFC1_0000_0000;

pub const HEAP_SIZE: u64 = PAGE_SIZE;

pub const HEAP_TOP: u64 = HEAP_BASE + HEAP_SIZE;

/// The size of `num` pages in bytes.
pub fn page(num: u64) -> (bytes: u64)
    requires
        num * 0x1000 <= u64::MAX,
    ensures
        bytes == num * 0x1000,
{
    num * 0x1000
}

pub fn kibobyte(num: u64) -> (bytes: u64)
    requires
        num * 1024 <= u64::MAX,
    ensures
        bytes == num * 1024,
{
    num * 1024
}

pub fn mibibyte(num: u64) -> (bytes: u64)
    requires
        num * 1024 * 1024 <= u64::MAX,
    ensures
        bytes == num * 1024 * 1024,
{
    num * 1024 * 1024
}

pub fn gibibyte(num: u64) -> (bytes: u64)
    requires
        num * 1024 * 1024 * 1024 <= u64::MAX,
    ensures
        bytes == num * 1024 * 1024 * 1024,
{
    num * 1024 * 1024 * 1024
}

/// A named range of virtual addresses, `base` included and `top` excluded.
pub struct Region {
    pub base: u64,
    pub top: u64,
}

impl Region {
    pub open spec fn contains(self, addr: u64) -> bool {
        self.base <= addr < self.top
    }

    pub open spec fn disjoint(self, other: Region) -> bool {
        self.top <= other.base || other.top <= self.base
    }

    pub open spec fn page_aligned(self) -> bool {
        self.base % PAGE_SIZE == 0 && self.top % PAGE_SIZE == 0
    }

    /// Whether `addr` lies in the region.
    pub fn holds(&self, addr: u64) -> (inside: bool)
        ensures
            inside == self.contains(addr),
    {
        self.base <= addr && addr < self.top
    }
}

pub open spec fn physmap_region() -> Region {
    Region { base: PHYSMAP_BASE, top: PHYSMAP_TOP }
}

pub open spec fn guard_region() -> Region {
    Region { base: STACK_GUARD, top: STACK_BASE }
}

pub open spec fn stack_region() -> Region {
    Region { base: STACK_BASE, top: STACK_TOP }
}

pub open spec fn bootinfo_region() -> Region {
    Region { base: BOOTINFO_BASE, top: BOOTINFO_TOP }
}

pub open spec fn heap_region() -> Region {
    Region { base: HEAP_BASE, top: HEAP_TOP }
}

/// The regions of the plan, lowest first.
pub open spec fn plan() -> Seq<Region> {
    seq![physmap_region(), guard_region(), stack_region(), bootinfo_region(), heap_region()]
}

/// The regions of the plan never overlap, each starts and ends on a page
/// boundary, and they lie in ascending order below the kernel image.
pub proof fn lemma_plan_regions_disjoint(i: int, j: int)
    requires
        0 <= i < j < plan().len(),
    ensures
        plan()[i].disjoint(plan()[j]),
        plan()[i].top <= plan()[j].base,
        plan()[i].page_aligned(),
        plan()[j].page_aligned(),
        plan()[i].base < plan()[i].top,
        KERNEL_SPACE_BASE <= plan()[i].base,
        plan()[j].top <= KERNEL_BASE,
{
}

/// The guard page follows the map of physical memory directly, is one page
/// long, and the stack starts where it ends.
pub proof fn lemma_guard_below_stack()
    ensures
        STACK_GUARD == PHYSMAP_TOP,
        STACK_BASE == STACK_GUARD + PAGE_SIZE,
        STACK_TOP - STACK_BASE == STACK_FRAMES * PAGE_SIZE,
        PHYSMAP_SIZE == 256 * 1024 * 1024 * 1024,
        BOOTINFO_SIZE == 1024 * 1024 * 1024,
        forall|addr: u64| guard_region().contains(addr) ==> !stack_region().contains(addr)
            && !physmap_region().contains(addr),
{
}

} // verus!
