use unx::memory_layout::{
    gibibyte, kibobyte, mibibyte, page, Region, BOOTINFO_BASE, BOOTINFO_SIZE, BOOTINFO_TOP,
    HEAP_BASE, HEAP_SIZE, HEAP_TOP, KERNEL_BASE, KERNEL_SPACE_BASE, LARGE_PAGE_SIZE, PAGE_SIZE,
    PHYSMAP_BASE, PHYSMAP_SIZE, PHYSMAP_TOP, STACK_BASE, STACK_FRAMES, STACK_GUARD, STACK_SIZE,
    STACK_TOP,
};

#[test]
fn sizes_are_powers_of_1024() {
    assert_eq!(page(1), 0x1000);
    assert_eq!(page(20), 0x14000);
    assert_eq!(kibobyte(4), 4096);
    assert_eq!(mibibyte(2), 0x20_0000);
    assert_eq!(gibibyte(1), 0x4000_0000);
    assert_eq!(gibibyte(256), 0x40_0000_0000);
    assert_eq!(page(0), 0);
}

#[test]
fn the_plan_has_the_agreed_numbers() {
    assert_eq!(PAGE_SIZE, page(1));
    assert_eq!(LARGE_PAGE_SIZE, mibibyte(2));
    assert_eq!(KERNEL_SPACE_BASE, 0xFFFF_FF80_0000_0000);
    assert_eq!(KERNEL_BASE, 0xFFFF_FFFF_8000_0000);
    assert_eq!(PHYSMAP_BASE, KERNEL_SPACE_BASE);
    assert_eq!(PHYSMAP_SIZE, gibibyte(256));
    assert_eq!(PHYSMAP_TOP, 0xFFFF_FFC0_0000_0000);
    assert_eq!(STACK_GUARD, 0xFFFF_FFC0_0000_0000);
    assert_eq!(STACK_BASE, 0xFFFF_FFC0_0000_1000);
    assert_eq!(STACK_FRAMES, 20);
    assert_eq!(STACK_SIZE, kibobyte(80));
    assert_eq!(STACK_TOP, 0xFFFF_FFC0_0001_5000);
    assert_eq!(BOOTINFO_BASE, 0xFFFF_FFC0_8000_0000);
    assert_eq!(BOOTINFO_SIZE, gibibyte(1));
    assert_eq!(BOOTINFO_TOP, 0xFFFF_FFC0_C000_0000);
    assert_eq!(HEAP_SIZE, PAGE_SIZE);
    assert_eq!(HEAP_TOP, HEAP_BASE + HEAP_SIZE);
}

#[test]
fn the_regions_of_the_plan_do_not_overlap() {
    let regions = [
        Region { base: PHYSMAP_BASE, top: PHYSMAP_TOP },
        Region { base: STACK_GUARD, top: STACK_BASE },
        Region { base: STACK_BASE, top: STACK_TOP },
        Region { base: BOOTINFO_BASE, top: BOOTINFO_TOP },
        Region { base: HEAP_BASE, top: HEAP_TOP },
    ];
    for (i, low) in regions.iter().enumerate() {
        assert!(low.base < low.top);
        assert_eq!(low.base % PAGE_SIZE, 0);
        assert_eq!(low.top % PAGE_SIZE, 0);
        for high in &regions[i + 1..] {
            assert!(low.top <= high.base);
            assert!(!low.holds(high.base));
            assert!(!high.holds(low.top - 1));
        }
    }
    assert!(regions[4].top <= KERNEL_BASE);
}

#[test]
fn the_guard_page_lies_between_the_physical_map_and_the_stack() {
    let guard = Region { base: STACK_GUARD, top: STACK_BASE };
    assert_eq!(guard.top - guard.base, PAGE_SIZE);
    assert_eq!(guard.base, PHYSMAP_TOP);
    assert!(guard.holds(STACK_GUARD));
    assert!(guard.holds(STACK_BASE - 1));
    assert!(!guard.holds(STACK_BASE));
    assert!(!guard.holds(PHYSMAP_TOP - 1));
}
