use unx::boot_info::{FrameBuffer, FrameBufferInfo};
use unx::bootloader::address_space::{
    map_bootinfo, map_framebuffer, map_loader, map_loader_entry, map_physmap, map_stack, raise_top,
    AreaMapping, LargeMapping, MemoryDescriptor, PhysMap, RegionKind,
};
use unx::bootloader::memory::BootInfoPageAllocator;
use unx::memory_layout::{
    BOOTINFO_BASE, BOOTINFO_SIZE, LARGE_PAGE_SIZE, PAGE_SIZE, PHYSMAP_BASE, PHYSMAP_SIZE,
    STACK_BASE, STACK_FRAMES, STACK_GUARD, STACK_TOP,
};
use unx::paging::{PageFlags, PhysFrame};

const DATA: PageFlags = PageFlags { writable: true, no_execute: true };

fn region(ty: RegionKind, phys_start: u64, page_count: u64) -> MemoryDescriptor {
    MemoryDescriptor { ty, phys_start, page_count }
}

#[test]
fn the_frame_buffer_is_mapped_into_the_boot_information_window() {
    let mut allocator = BootInfoPageAllocator::new();
    allocator.allocate(1).unwrap();
    let info = FrameBufferInfo { width: 1024, height: 768, stride: 1024 };
    let (frame_buffer, area) =
        map_framebuffer(&mut allocator, 0x8000_0000, 1024 * 768 * 4, info).unwrap();
    assert_eq!(
        frame_buffer,
        FrameBuffer { buffer_base: BOOTINFO_BASE + PAGE_SIZE, buffer_size: 1024 * 768 * 4, info }
    );
    assert_eq!(
        area,
        AreaMapping { page: BOOTINFO_BASE + PAGE_SIZE, frame: 0x8000_0000, count: 768, flags: DATA }
    );
    let (next, _) = allocator.allocate(1).unwrap();
    assert_eq!(next.start_address(), BOOTINFO_BASE + 769 * PAGE_SIZE);
}

#[test]
fn a_frame_buffer_is_mapped_from_the_frame_that_holds_its_start() {
    let mut allocator = BootInfoPageAllocator::new();
    let info = FrameBufferInfo { width: 2, height: 2, stride: 2 };
    let (_, area) = map_framebuffer(&mut allocator, 0xc000_0a00, 16, info).unwrap();
    assert_eq!(area.frame, 0xc000_0000);
    assert_eq!(area.count, 1);
}

#[test]
fn a_frame_buffer_that_cannot_be_mapped_reserves_nothing() {
    let mut allocator = BootInfoPageAllocator::new();
    let info = FrameBufferInfo { width: 0, height: 0, stride: 0 };
    assert_eq!(map_framebuffer(&mut allocator, 0x10_0000_0000_0000, 4096, info), None);
    assert_eq!(map_framebuffer(&mut allocator, 0x1000, BOOTINFO_SIZE as usize + 1, info), None);
    let (page, _) = allocator.allocate(1).unwrap();
    assert_eq!(page.start_address(), BOOTINFO_BASE);
}

#[test]
fn the_boot_information_is_mapped_as_data() {
    let mut allocator = BootInfoPageAllocator::new();
    let frame = PhysFrame::from_start_address(0x7000).unwrap();
    let area = map_bootinfo(&mut allocator, frame, 6200).unwrap();
    assert_eq!(area, AreaMapping { page: BOOTINFO_BASE, frame: 0x7000, count: 2, flags: DATA });
    let second = map_bootinfo(&mut allocator, frame, 1).unwrap();
    assert_eq!(second.page, BOOTINFO_BASE + 2 * PAGE_SIZE);
    assert_eq!(map_bootinfo(&mut allocator, frame, BOOTINFO_SIZE as usize), None);
    let mappings = area.mappings().unwrap();
    assert_eq!(mappings.len(), 2);
    assert_eq!(mappings[1].page.start_address(), BOOTINFO_BASE + PAGE_SIZE);
    assert_eq!(mappings[1].frame.start_address(), 0x8000);
    assert_eq!(mappings[1].flags, DATA);
}

#[test]
fn the_stack_lies_directly_above_the_guard_page() {
    let (area, stack_pointer) = map_stack(PhysFrame::from_start_address(0x5_0000).unwrap());
    assert_eq!(
        area,
        AreaMapping {
            page: STACK_BASE,
            frame: 0x5_0000,
            count: STACK_FRAMES,
            flags: PageFlags { writable: true, no_execute: false },
        }
    );
    assert_eq!(area.page, STACK_GUARD + PAGE_SIZE);
    assert_eq!(area.page + area.count * PAGE_SIZE, STACK_TOP);
    assert_eq!(stack_pointer, 0xFFFF_FFC0_0001_4FF8);
    assert_eq!(stack_pointer % 8, 0);
    assert!(STACK_BASE <= stack_pointer && stack_pointer < STACK_TOP);
    let mappings = area.mappings().unwrap();
    assert_eq!(mappings.len(), 20);
    assert!(mappings.iter().all(|m| m.page.start_address() > STACK_GUARD));
}

#[test]
fn the_loader_stays_mapped_where_it_is() {
    let memory_map = [
        region(RegionKind::Other, 0, 0x100),
        region(RegionKind::LoaderCode, 0x10_0000, 0x20),
        region(RegionKind::Other, 0x8000_0000_0000, 1),
        region(RegionKind::LoaderData, 0x20_0800, 3),
        region(RegionKind::LoaderCode, 0x30_0000, 0),
    ];
    let areas = map_loader(&memory_map).unwrap();
    assert_eq!(
        areas,
        vec![
            AreaMapping {
                page: 0x10_0000,
                frame: 0x10_0000,
                count: 0x20,
                flags: PageFlags { writable: false, no_execute: false },
            },
            AreaMapping { page: 0x20_0000, frame: 0x20_0000, count: 3, flags: DATA },
            AreaMapping {
                page: 0x30_0000,
                frame: 0x30_0000,
                count: 0,
                flags: PageFlags { writable: false, no_execute: false },
            },
        ]
    );
}

#[test]
fn a_map_without_the_loader_keeps_nothing_mapped() {
    assert_eq!(map_loader(&[]), Some(vec![]));
    assert_eq!(map_loader(&[region(RegionKind::Other, u64::MAX, u64::MAX)]), Some(vec![]));
}

#[test]
fn the_loader_cannot_stay_at_an_address_that_is_no_virtual_address() {
    let memory_map =
        [region(RegionKind::LoaderData, 0x1000, 1), region(RegionKind::LoaderCode, 0x8000_0000_0000, 1)];
    assert_eq!(map_loader(&memory_map), None);
    let memory_map = [region(RegionKind::LoaderData, 0x7fff_ffff_ffff, 1)];
    assert_eq!(map_loader(&memory_map).unwrap()[0].page, 0x7fff_ffff_f000);
}

#[test]
fn physical_memory_is_mapped_up_to_the_large_page_of_its_highest_address() {
    let memory_map = [
        region(RegionKind::Other, 0x10_0000, 0x7f00),
        region(RegionKind::LoaderData, 0, 0x100),
        region(RegionKind::Other, 0x400_0000, 1),
    ];
    let map = map_physmap(&memory_map).unwrap();
    assert_eq!(map, PhysMap { frames: 65 });
    let top = 0x800_0000u64;
    let last = map.nth(top / LARGE_PAGE_SIZE).unwrap();
    assert_eq!(last, LargeMapping { page: PHYSMAP_BASE + top, frame: top, flags: DATA });
    for index in 0..map.frames {
        let mapping = map.nth(index).unwrap();
        assert_eq!(mapping.frame, index * LARGE_PAGE_SIZE);
        assert_eq!(mapping.page, PHYSMAP_BASE + mapping.frame);
        assert_eq!(mapping.flags, DATA);
    }
}

#[test]
fn every_address_of_the_memory_map_lies_in_the_physical_map() {
    let memory_map = [
        region(RegionKind::Other, 0x1f_f000, 1),
        region(RegionKind::Other, 0x12_3000, 0x321),
        region(RegionKind::LoaderCode, 0x4000, 4),
    ];
    let map = map_physmap(&memory_map).unwrap();
    for entry in &memory_map {
        let end = entry.phys_start + entry.page_count * PAGE_SIZE;
        assert!(end / LARGE_PAGE_SIZE < map.frames);
        assert!(entry.phys_start / LARGE_PAGE_SIZE < map.frames);
    }
    assert_eq!(map.frames, 3);
}

#[test]
fn a_small_memory_takes_one_large_page() {
    assert_eq!(map_physmap(&[region(RegionKind::Other, 0, 0)]), Some(PhysMap { frames: 1 }));
    assert_eq!(map_physmap(&[region(RegionKind::Other, 0x1000, 0x1fe)]), Some(PhysMap { frames: 1 }));
    assert_eq!(map_physmap(&[region(RegionKind::Other, 0x1000, 0x1ff)]), Some(PhysMap { frames: 2 }));
}

#[test]
fn an_empty_memory_map_gives_no_physical_map() {
    assert_eq!(map_physmap(&[]), None);
}

#[test]
fn physical_memory_must_fit_into_its_window() {
    let pages = PHYSMAP_SIZE / PAGE_SIZE;
    assert_eq!(map_physmap(&[region(RegionKind::Other, 0, pages)]), None);
    assert_eq!(map_physmap(&[region(RegionKind::Other, 0, u64::MAX)]), None);
    assert_eq!(map_physmap(&[region(RegionKind::Other, u64::MAX, 1)]), None);
    assert_eq!(map_physmap(&[region(RegionKind::Other, PHYSMAP_SIZE, 0)]), None);
    assert_eq!(
        map_physmap(&[region(RegionKind::Other, 0, 1), region(RegionKind::Other, 0x1000, pages)]),
        None
    );
    let map = map_physmap(&[region(RegionKind::Other, 0, pages - 1)]).unwrap();
    assert_eq!(map.frames, PHYSMAP_SIZE / LARGE_PAGE_SIZE);
    assert_eq!(map.nth(map.frames - 1).unwrap().page, PHYSMAP_BASE + PHYSMAP_SIZE - LARGE_PAGE_SIZE);
    assert_eq!(map.nth(map.frames), None);
    assert_eq!(PhysMap { frames: map.frames + 1 }.nth(0), None);
}

#[test]
fn the_mappings_of_an_area_can_be_taken_one_by_one() {
    let area = AreaMapping { page: 0xffff_ffff_8000_0000, frame: 0x20_0000, count: 3, flags: DATA };
    let all = area.mappings().unwrap();
    for index in 0..3 {
        let mapping = area.nth(index).unwrap();
        assert_eq!(mapping, all[index as usize]);
        assert_eq!(mapping.page.start_address(), 0xffff_ffff_8000_0000 + index * PAGE_SIZE);
        assert_eq!(mapping.frame.start_address(), 0x20_0000 + index * PAGE_SIZE);
        assert_eq!(mapping.flags, DATA);
    }
    assert_eq!(area.nth(3), None);
    assert_eq!(area.nth(u64::MAX), None);
}

#[test]
fn a_mapping_outside_the_address_space_does_not_exist() {
    let area = AreaMapping { page: 0xffff_ffff_ffff_f000, frame: 0x1000, count: 2, flags: DATA };
    assert!(area.nth(0).is_some());
    assert_eq!(area.nth(1), None);
    let area = AreaMapping { page: 0x1000, frame: 0xf_ffff_ffff_f000, count: 2, flags: DATA };
    assert!(area.nth(0).is_some());
    assert_eq!(area.nth(1), None);
    assert_eq!(area.mappings(), None);
}

#[test]
fn each_entry_of_the_loader_is_kept_on_its_own() {
    assert_eq!(map_loader_entry(&region(RegionKind::Other, 0x8000_0000_0000, 1)), Ok(None));
    assert_eq!(
        map_loader_entry(&region(RegionKind::LoaderData, 0x5abc, 2)),
        Ok(Some(AreaMapping { page: 0x5000, frame: 0x5000, count: 2, flags: DATA }))
    );
    assert_eq!(
        map_loader_entry(&region(RegionKind::LoaderCode, 0x5000, 2)),
        Ok(Some(AreaMapping {
            page: 0x5000,
            frame: 0x5000,
            count: 2,
            flags: PageFlags { writable: false, no_execute: false },
        }))
    );
    assert_eq!(map_loader_entry(&region(RegionKind::LoaderCode, 0x8000_0000_0000, 1)), Err(()));
    assert_eq!(map_loader_entry(&region(RegionKind::LoaderData, u64::MAX, 1)), Err(()));
}

#[test]
fn the_top_of_physical_memory_rises_entry_by_entry() {
    assert_eq!(raise_top(0, &region(RegionKind::Other, 0x1000, 2)), Some(0x3000));
    assert_eq!(raise_top(0x8000, &region(RegionKind::Other, 0x1000, 2)), Some(0x8000));
    assert_eq!(raise_top(0x3000, &region(RegionKind::Other, 0x1000, 2)), Some(0x3000));
    assert_eq!(raise_top(0, &region(RegionKind::Other, PHYSMAP_SIZE - 0x2000, 1)), Some(PHYSMAP_SIZE - 0x1000));
    assert_eq!(raise_top(0, &region(RegionKind::Other, PHYSMAP_SIZE - 0x1000, 1)), None);
    assert_eq!(raise_top(PHYSMAP_SIZE, &region(RegionKind::Other, 0, 0)), None);
    assert_eq!(raise_top(0, &region(RegionKind::Other, 0, u64::MAX)), None);
    assert_eq!(PhysMap::up_to(0), Some(PhysMap { frames: 1 }));
    assert_eq!(PhysMap::up_to(0x1f_ffff), Some(PhysMap { frames: 1 }));
    assert_eq!(PhysMap::up_to(0x20_0000), Some(PhysMap { frames: 2 }));
    assert_eq!(PhysMap::up_to(PHYSMAP_SIZE - 1), Some(PhysMap { frames: PHYSMAP_SIZE / LARGE_PAGE_SIZE }));
    assert_eq!(PhysMap::up_to(PHYSMAP_SIZE), None);
}

#[test]
fn an_area_that_does_not_start_at_a_page_and_a_frame_has_no_mappings() {
    let area = AreaMapping { page: 0x1000, frame: 0x2000, count: 1, flags: DATA };
    assert!(area.nth(0).is_some());
    assert!(area.mappings().is_some());
    for bad in [
        AreaMapping { page: 0x1008, ..area },
        AreaMapping { frame: 0x2fff, ..area },
        AreaMapping { page: 0x8000_0000_0000, ..area },
        AreaMapping { frame: 0x10_0000_0000_0000, ..area },
    ] {
        assert_eq!(bad.nth(0), None);
        assert_eq!(bad.mappings(), None);
    }
}
