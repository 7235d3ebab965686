//! Frames, pages and mapping requests.
//!
//! A frame is a page-sized unit of physical memory, a page a page-sized unit
//! of virtual address space; both are known by their start address. The
//! types here stand for the address types of the `x86_64` crate, whose own
//! rules on alignment and on valid addresses decide what they admit.

use vstd::prelude::*;
use vstd::arithmetic::power2::is_pow2;
use crate::memory_layout::{LARGE_PAGE_SIZE, PAGE_SIZE};

verus! {

/// First address that is no physical address: bits 52 to 63 must be clear.
pub const PHYS_ADDR_LIMIT: u64 = 0x10_0000_0000_0000;

/// End of the lower half of the canonical addresses.
pub const LOWER_HALF_TOP: u64 = 0x8000_0000_0000;

/// Start of the upper half of the canonical addresses.
pub const UPPER_HALF_BASE: u64 = 0xFFFF_8000_0000_0000;

/// The greatest multiple of `align` that is at most `addr`.
pub open spec fn round_down(addr: int, align: int) -> int {
    addr - addr % align
}

/// The smallest multiple of `align` that is at least `addr`.
pub open spec fn round_up(addr: int, align: int) -> int {
    if addr % align == 0 {
        addr
    } else {
        addr - addr % align + align
    }
}

/// A virtual address is canonical if bits 48 to 63 repeat bit 47.
pub open spec fn canonical(addr: u64) -> bool {
    addr < LOWER_HALF_TOP || addr >= UPPER_HALF_BASE
}

/// A physical address has bits 52 to 63 clear.
pub open spec fn physical(addr: u64) -> bool {
    addr < PHYS_ADDR_LIMIT
}

/// `x86_64::align_down`: the greatest multiple of `align` that is at most
/// `addr`. The crate panics unless `align` is a power of two.
#[verifier::external_body]
pub(crate) fn align_down(addr: u64, align: u64) -> (aligned: u64)
    requires
        is_pow2(align as int),
    ensures
        aligned == round_down(addr as int, align as int),
{
    x86_64::align_down(addr, align)
}

/// `x86_64::align_up`: the smallest multiple of `align` that is at least
/// `addr`. The crate panics unless `align` is a power of two, and where that
/// multiple does not fit in 64 bits.
#[verifier::external_body]
pub(crate) fn align_up(addr: u64, align: u64) -> (aligned: u64)
    requires
        is_pow2(align as int),
        round_up(addr as int, align as int) <= u64::MAX,
    ensures
        aligned == round_up(addr as int, align as int),
{
    x86_64::align_up(addr, align)
}

/// `x86_64::VirtAddr::try_new` accepts exactly the canonical addresses.
#[verifier::external_body]
pub(crate) fn is_canonical(addr: u64) -> (ok: bool)
    ensures
        ok == canonical(addr),
{
    x86_64::VirtAddr::try_new(addr).is_ok()
}

/// `x86_64::PhysAddr::try_new` accepts exactly the addresses below 2^52.
#[verifier::external_body]
pub(crate) fn is_physical(addr: u64) -> (ok: bool)
    ensures
        ok == physical(addr),
{
    x86_64::PhysAddr::try_new(addr).is_ok()
}

/// Rounding up gives a multiple of `align`, and moves up by less than
/// `align`.
pub proof fn lemma_round_up(addr: int, align: int)
    requires
        addr >= 0,
        align > 0,
    ensures
        round_up(addr, align) % align == 0,
        addr <= round_up(addr, align) < addr + align,
{
    lemma_round_down(addr, align);
    if addr % align != 0 {
        vstd::arithmetic::div_mod::lemma_mod_add_multiples_vanish(round_down(addr, align), align);
    }
}

/// Rounding down gives a multiple of `align`, and moves down by less than
/// `align`.
pub proof fn lemma_round_down(addr: int, align: int)
    requires
        addr >= 0,
        align > 0,
    ensures
        round_down(addr, align) % align == 0,
        addr - align < round_down(addr, align) <= addr,
{
    vstd::arithmetic::div_mod::lemma_fundamental_div_mod(addr, align);
    vstd::arithmetic::div_mod::lemma_mod_pos_bound(addr, align);
    vstd::arithmetic::div_mod::lemma_mod_multiples_basic(addr / align, align);
    vstd::arithmetic::mul::lemma_mul_is_commutative(addr / align, align);
}

pub proof fn lemma_page_sizes_are_powers_of_two()
    ensures
        is_pow2(PAGE_SIZE as int),
        is_pow2(LARGE_PAGE_SIZE as int),
        is_pow2(8),
{
    reveal_with_fuel(is_pow2, 23);
}

/// The number of pages that `bytes` bytes take up.
pub open spec fn pages_for(bytes: int) -> int {
    round_up(bytes, PAGE_SIZE as int) / (PAGE_SIZE as int)
}

/// A 4 KiB frame of physical memory. Its view is its start address.
#[derive(Clone, Copy, Debug, PartialEq, Eq, Structural)]
pub struct PhysFrame {
    start_address: u64,
}

impl View for PhysFrame {
    type V = u64;

    closed spec fn view(&self) -> u64 {
        self.start_address
    }
}

impl PhysFrame {
    #[verifier::type_invariant]
    spec fn well_formed(self) -> bool {
        self.start_address % PAGE_SIZE == 0 && physical(self.start_address)
    }

    /// What every frame in executable code satisfies.
    pub open spec fn valid(self) -> bool {
        self@ % PAGE_SIZE == 0 && physical(self@)
    }

    /// The frame that holds `addr`, if `addr` is a physical address.
    pub fn containing_address(addr: u64) -> (frame: Option<PhysFrame>)
        ensures
            physical(addr) <==> frame is Some,
            frame matches Some(f) ==> f@ == round_down(addr as int, PAGE_SIZE as int) && f.valid(),
    {
        if !is_physical(addr) {
            return None;
        }
        proof {
            lemma_page_sizes_are_powers_of_two();
        }
        Some(PhysFrame { start_address: align_down(addr, PAGE_SIZE) })
    }

    /// The frame that starts at `addr`, if a frame starts there.
    pub fn from_start_address(addr: u64) -> (frame: Option<PhysFrame>)
        ensures
            (physical(addr) && addr % PAGE_SIZE == 0) <==> frame is Some,
            frame matches Some(f) ==> f@ == addr && f.valid(),
    {
        if !is_physical(addr) || addr % PAGE_SIZE != 0 {
            return None;
        }
        Some(PhysFrame { start_address: addr })
    }

    pub fn start_address(&self) -> (addr: u64)
        ensures
            addr == self@,
            self.valid(),
    {
        proof {
            use_type_invariant(self);
        }
        self.start_address
    }

    /// The frame `count` frames further up, if there is one.
    pub fn offset(&self, count: u64) -> (frame: Option<PhysFrame>)
        ensures
            self.valid(),
            self@ + count * PAGE_SIZE < PHYS_ADDR_LIMIT <==> frame is Some,
            frame matches Some(f) ==> f@ == self@ + count * PAGE_SIZE && f.valid(),
    {
        proof {
            use_type_invariant(self);
        }
        if count >= PHYS_ADDR_LIMIT / PAGE_SIZE {
            return None;
        }
        let addr = self.start_address + count * PAGE_SIZE;
        if !is_physical(addr) {
            return None;
        }
        Some(PhysFrame { start_address: addr })
    }
}

/// A 4 KiB page of virtual address space. Its view is its start address.
#[derive(Clone, Copy, Debug, PartialEq, Eq, Structural)]
pub struct Page {
    start_address: u64,
}

impl View for Page {
    type V = u64;

    closed spec fn view(&self) -> u64 {
        self.start_address
    }
}

impl Page {
    #[verifier::type_invariant]
    spec fn well_formed(self) -> bool {
        self.start_address % PAGE_SIZE == 0 && canonical(self.start_address)
    }

    /// What every page in executable code satisfies.
    pub open spec fn valid(self) -> bool {
        self@ % PAGE_SIZE == 0 && canonical(self@)
    }

    /// The page that starts at `addr`, if a page starts there.
    pub fn from_start_address(addr: u64) -> (page: Option<Page>)
        ensures
            (canonical(addr) && addr % PAGE_SIZE == 0) <==> page is Some,
            page matches Some(p) ==> p@ == addr && p.valid(),
    {
        if !is_canonical(addr) || addr % PAGE_SIZE != 0 {
            return None;
        }
        Some(Page { start_address: addr })
    }

    /// The page that holds `addr`, if `addr` is canonical.
    pub fn containing_address(addr: u64) -> (page: Option<Page>)
        ensures
            canonical(addr) <==> page is Some,
            page matches Some(p) ==> p@ == round_down(addr as int, PAGE_SIZE as int) && p.valid(),
    {
        if !is_canonical(addr) {
            return None;
        }
        proof {
            lemma_page_sizes_are_powers_of_two();
        }
        Some(Page { start_address: align_down(addr, PAGE_SIZE) })
    }

    pub fn start_address(&self) -> (addr: u64)
        ensures
            addr == self@,
            self.valid(),
    {
        proof {
            use_type_invariant(self);
        }
        self.start_address
    }

    /// The page `count` pages further up, if the address space holds it.
    pub fn offset(&self, count: u64) -> (page: Option<Page>)
        ensures
            self.valid(),
            (self@ + count * PAGE_SIZE <= u64::MAX && canonical(
                (self@ + count * PAGE_SIZE) as u64,
            )) <==> page is Some,
            page matches Some(p) ==> p@ == self@ + count * PAGE_SIZE && p.valid(),
    {
        proof {
            use_type_invariant(self);
        }
        if count > (u64::MAX - self.start_address) / PAGE_SIZE {
            return None;
        }
        let addr = self.start_address + count * PAGE_SIZE;
        if !is_canonical(addr) {
            return None;
        }
        Some(Page { start_address: addr })
    }
}

/// What a mapping allows. Every mapping is present and for the supervisor
/// only.
#[derive(Clone, Copy, Debug, PartialEq, Eq, Structural)]
pub struct PageFlags {
    pub writable: bool,
    pub no_execute: bool,
}

/// A request to map one page to one frame.
#[derive(Clone, Copy, Debug, PartialEq, Eq, Structural)]
pub struct PageMapping {
    pub page: Page,
    pub frame: PhysFrame,
    pub flags: PageFlags,
}

/// The pages that `bytes` bytes take up.
pub fn pages_needed(bytes: u64) -> (count: u64)
    requires
        round_up(bytes as int, PAGE_SIZE as int) <= u64::MAX,
    ensures
        count == pages_for(bytes as int),
        count * PAGE_SIZE >= bytes,
        count * PAGE_SIZE < bytes + PAGE_SIZE,
{
    proof {
        lemma_page_sizes_are_powers_of_two();
    }
    align_up(bytes, PAGE_SIZE) / PAGE_SIZE
}

/// Maps `count` pages from `page` on to the frames from `frame` on, one to
/// one and in ascending order.
///
/// Returns the single mappings to install, or `None` where the area runs
/// out of the address space or of physical memory.
pub fn map_area_and_ignore(page: Page, frame: PhysFrame, count: u64, flags: PageFlags) -> (area:
    Option<Vec<PageMapping>>)
    requires
        count <= usize::MAX,
    ensures
        area is Some <==> area_fits(page@, frame@, count),
        area matches Some(mappings) ==> {
            &&& mappings@.len() == count
            &&& forall|i: int|
                0 <= i < count ==> {
                    &&& (#[trigger] mappings@[i]).page@ == page@ + i * PAGE_SIZE
                    &&& mappings@[i].frame@ == frame@ + i * PAGE_SIZE
                    &&& mappings@[i].flags == flags
                    &&& mappings@[i].page.valid()
                    &&& mappings@[i].frame.valid()
                }
        },
{
    let mut mappings: Vec<PageMapping> = Vec::new();
    let mut i: u64 = 0;
    proof {
        use_type_invariant(&page);
        use_type_invariant(&frame);
    }
    while i < count
        invariant
            i <= count,
            count <= usize::MAX,
            page.valid(),
            frame.valid(),
            mappings@.len() == i,
            area_fits(page@, frame@, i),
            forall|k: int|
                0 <= k < i ==> {
                    &&& (#[trigger] mappings@[k]).page@ == page@ + k * PAGE_SIZE
                    &&& mappings@[k].frame@ == frame@ + k * PAGE_SIZE
                    &&& mappings@[k].flags == flags
                    &&& mappings@[k].page.valid()
                    &&& mappings@[k].frame.valid()
                },
        decreases count - i,
    {
        let next_page = page.offset(i);
        let next_frame = frame.offset(i);
        match (next_page, next_frame) {
            (Some(p), Some(f)) => {
                mappings.push(PageMapping { page: p, frame: f, flags });
            },
            _ => {
                assert(!area_fits(page@, frame@, count)) by {
                    assert(!page_reachable(page@, i as int) || !physical_reachable(
                        frame@,
                        i as int,
                    ));
                }
                return None;
            },
        }
        i += 1;
    }
    Some(mappings)
}

/// The page `index` pages above `page` exists.
pub open spec fn page_reachable(page: u64, index: int) -> bool {
    page + index * PAGE_SIZE <= u64::MAX && canonical((page + index * PAGE_SIZE) as u64)
}

/// The frame `index` frames above `frame` exists.
pub open spec fn physical_reachable(frame: u64, index: int) -> bool {
    frame + index * PAGE_SIZE < PHYS_ADDR_LIMIT
}

/// Each of the `count` pages from `page` on and each of the `count` frames
/// from `frame` on exists.
pub open spec fn area_fits(page: u64, frame: u64, count: u64) -> bool {
    forall|i: int|
        0 <= i < count ==> #[trigger] page_reachable(page, i) && physical_reachable(frame, i)
}

} // verus!
