use unx::boot_info::{MemoryMap, MemoryMapEntry, MemoryType};
use unx::kernel::phys::{
    init, is_sound, phys_to_virt, physmap_words, StackFrameAllocator, NO_FRAME,
};
use unx::memory_layout::PHYSMAP_BASE;
use unx::paging::PhysFrame;

const WORDS: usize = 0x1_0000 / 8;

fn frame(address: u64) -> PhysFrame {
    PhysFrame::from_start_address(address).unwrap()
}

fn map_of(entries: &[(u64, usize, MemoryType)]) -> MemoryMap {
    let mut map = MemoryMap::default();
    for &(start, size, memory_type) in entries {
        map.add_entry(MemoryMapEntry { start, size, memory_type }).unwrap();
    }
    map
}

#[test]
fn a_new_allocator_has_no_frame() {
    let physmap = vec![0u64; WORDS];
    let mut allocator = StackFrameAllocator::new();
    assert_eq!(allocator.count(), 0);
    assert_eq!(allocator.allocate_frame(&physmap), None);
    assert_eq!(allocator.count(), 0);
}

#[test]
fn the_frame_given_back_last_is_allocated_first() {
    let mut physmap = vec![0u64; WORDS];
    let mut allocator = StackFrameAllocator::new();
    allocator.deallocate_frame(&mut physmap, frame(0x3000));
    allocator.deallocate_frame(&mut physmap, frame(0x7000));
    allocator.deallocate_frame(&mut physmap, frame(0x1000));
    assert_eq!(allocator.count(), 3);
    assert_eq!(allocator.allocate_frame(&physmap), Some(frame(0x1000)));
    assert_eq!(allocator.allocate_frame(&physmap), Some(frame(0x7000)));
    assert_eq!(allocator.allocate_frame(&physmap), Some(frame(0x3000)));
    assert_eq!(allocator.allocate_frame(&physmap), None);
    assert_eq!(allocator.count(), 0);
}

#[test]
fn a_frame_that_is_given_back_comes_straight_back() {
    let mut physmap = vec![0u64; WORDS];
    let mut allocator = StackFrameAllocator::new();
    allocator.deallocate_frame(&mut physmap, frame(0x2000));
    allocator.deallocate_frame(&mut physmap, frame(0x4000));
    for address in [0x9000u64, 0x0, 0x5000] {
        allocator.deallocate_frame(&mut physmap, frame(address));
        assert_eq!(allocator.allocate_frame(&physmap), Some(frame(address)));
        assert_eq!(allocator.count(), 2);
    }
    assert_eq!(allocator.allocate_frame(&physmap), Some(frame(0x4000)));
    assert_eq!(allocator.allocate_frame(&physmap), Some(frame(0x2000)));
}

#[test]
fn the_links_stand_in_the_first_word_of_each_free_frame() {
    let mut physmap = vec![0u64; WORDS];
    let mut allocator = StackFrameAllocator::new();
    allocator.deallocate_frame(&mut physmap, frame(0x3000));
    assert_eq!(physmap[0x3000 / 8], NO_FRAME);
    allocator.deallocate_frame(&mut physmap, frame(0x7000));
    assert_eq!(physmap[0x7000 / 8], 0x3000);
    allocator.deallocate_frame(&mut physmap, frame(0x0));
    assert_eq!(physmap[0], 0x7000);
    let touched: Vec<usize> = (0..WORDS).filter(|&i| physmap[i] != 0).collect();
    assert_eq!(touched, vec![0, 0x3000 / 8, 0x7000 / 8]);
}

#[test]
fn frames_allocated_in_a_row_are_all_different() {
    let mut physmap = vec![0u64; WORDS];
    let mut allocator = StackFrameAllocator::new();
    for index in 0..16 {
        allocator.deallocate_frame(&mut physmap, frame(0x1000 * ((index * 7) % 16)));
    }
    let mut seen = Vec::new();
    while let Some(frame) = allocator.allocate_frame(&physmap) {
        assert!(!seen.contains(&frame.start_address()));
        seen.push(frame.start_address());
    }
    assert_eq!(seen.len(), 16);
}

#[test]
fn only_conventional_memory_is_handed_out() {
    let mut physmap = vec![0u64; WORDS];
    let map = map_of(&[
        (0x0000, 0x2000, MemoryType::Unusable),
        (0x3000, 0x3000, MemoryType::Conventional),
        (0x6000, 0x2000, MemoryType::Unusable),
        (0x8000, 0x1800, MemoryType::Conventional),
    ]);
    let mut allocator = StackFrameAllocator::new();
    init(&mut allocator, &map, &mut physmap);
    assert_eq!(allocator.count(), 4);
    let mut allocated = Vec::new();
    while let Some(frame) = allocator.allocate_frame(&physmap) {
        allocated.push(frame.start_address());
    }
    assert_eq!(allocated, vec![0x8000, 0x5000, 0x4000, 0x3000]);
}

#[test]
fn an_entry_gives_the_frames_that_lie_in_it_with_all_their_bytes() {
    let mut physmap = vec![0u64; WORDS];
    let map = map_of(&[(0x2800, 0x3000, MemoryType::Conventional)]);
    let mut allocator = StackFrameAllocator::new();
    init(&mut allocator, &map, &mut physmap);
    assert_eq!(allocator.allocate_frame(&physmap), Some(frame(0x4000)));
    assert_eq!(allocator.allocate_frame(&physmap), Some(frame(0x3000)));
    assert_eq!(allocator.allocate_frame(&physmap), None);
}

#[test]
fn an_entry_that_holds_no_whole_frame_gives_none() {
    let mut physmap = vec![0u64; WORDS];
    let map = map_of(&[
        (0x2800, 0x1000, MemoryType::Conventional),
        (0x5001, 0x1ffe, MemoryType::Conventional),
        (0x9000, 0xfff, MemoryType::Conventional),
        (0xa001, 0xfff, MemoryType::Conventional),
    ]);
    let mut allocator = StackFrameAllocator::new();
    init(&mut allocator, &map, &mut physmap);
    assert_eq!(allocator.count(), 0);
    assert!(physmap.iter().all(|&word| word == 0));
}

#[test]
fn a_map_without_conventional_memory_gives_no_frame() {
    let mut physmap = vec![0u64; WORDS];
    let map = map_of(&[(0x0, 0x8000, MemoryType::Unusable), (0x9000, 0xfff, MemoryType::Conventional)]);
    let mut allocator = StackFrameAllocator::new();
    init(&mut allocator, &map, &mut physmap);
    assert_eq!(allocator.count(), 0);
    assert_eq!(allocator.allocate_frame(&physmap), None);
    assert!(physmap.iter().all(|&word| word == 0));
}

#[test]
fn filling_from_a_map_goes_on_top_of_what_is_free() {
    let mut physmap = vec![0u64; WORDS];
    let mut allocator = StackFrameAllocator::new();
    allocator.deallocate_frame(&mut physmap, frame(0xf000));
    let map = map_of(&[(0x1000, 0x2000, MemoryType::Conventional)]);
    init(&mut allocator, &map, &mut physmap);
    assert_eq!(allocator.count(), 3);
    assert_eq!(allocator.allocate_frame(&physmap), Some(frame(0x2000)));
    assert_eq!(allocator.allocate_frame(&physmap), Some(frame(0x1000)));
    assert_eq!(allocator.allocate_frame(&physmap), Some(frame(0xf000)));
}

#[test]
fn writes_to_allocated_frames_do_not_disturb_the_allocator() {
    let mut physmap = vec![0u64; WORDS];
    let mut allocator = StackFrameAllocator::new();
    allocator.deallocate_frame(&mut physmap, frame(0x1000));
    allocator.deallocate_frame(&mut physmap, frame(0x2000));
    let taken = allocator.allocate_frame(&physmap).unwrap();
    for word in 0..512 {
        physmap[taken.start_address() as usize / 8 + word] = 0xdead_beef;
    }
    assert_eq!(allocator.allocate_frame(&physmap), Some(frame(0x1000)));
    assert_eq!(allocator.allocate_frame(&physmap), None);
}

#[test]
fn physical_memory_is_found_above_the_base_of_its_map() {
    assert_eq!(phys_to_virt(0), Some(PHYSMAP_BASE));
    assert_eq!(phys_to_virt(0x1234_5000), Some(0xFFFF_FF80_1234_5000));
    assert_eq!(phys_to_virt(0x7f_ffff_ffff), Some(u64::MAX));
    assert_eq!(phys_to_virt(0x80_0000_0000), None);
}

#[test]
fn a_map_is_sound_if_its_frames_lie_apart_and_in_memory() {
    let map = map_of(&[
        (0x0000, 0x3000, MemoryType::Unusable),
        (0x1000, 0x2000, MemoryType::Conventional),
        (0x3000, 0x1000, MemoryType::Conventional),
        (0x2000, 0x8000, MemoryType::Unusable),
        (0x8800, 0x1000, MemoryType::Conventional),
    ]);
    assert!(is_sound(&map, WORDS));
    assert!(is_sound(&map, 0x9000 / 8));
    assert!(!is_sound(&map, 0x9000 / 8 - 1));
    assert!(is_sound(&MemoryMap::default(), 0));
}

#[test]
fn a_map_with_overlapping_conventional_entries_is_not_sound() {
    let map = map_of(&[(0x1000, 0x3000, MemoryType::Conventional), (0x3000, 0x1000, MemoryType::Conventional)]);
    assert!(!is_sound(&map, WORDS));
    let map = map_of(&[(0x3000, 0x1000, MemoryType::Conventional), (0x1000, 0x3000, MemoryType::Conventional)]);
    assert!(!is_sound(&map, WORDS));
    let map = map_of(&[(0x1800, 0x1800, MemoryType::Conventional), (0x1000, 0x2000, MemoryType::Conventional)]);
    assert!(!is_sound(&map, WORDS));
    let map = map_of(&[(0x1800, 0x1000, MemoryType::Conventional), (0x1000, 0x1000, MemoryType::Conventional)]);
    assert!(is_sound(&map, WORDS));
    let map = map_of(&[(0x1000, 0x1000, MemoryType::Conventional), (0x1000, 0x1000, MemoryType::Conventional)]);
    assert!(!is_sound(&map, WORDS));
    let map = map_of(&[(0x1000, 0xfff, MemoryType::Conventional), (0x1000, 0xfff, MemoryType::Conventional)]);
    assert!(is_sound(&map, WORDS));
}

#[test]
fn a_map_beyond_physical_memory_is_not_sound() {
    let map = map_of(&[(0xf_ffff_ffff_f000, 0x1000, MemoryType::Conventional)]);
    assert!(!is_sound(&map, usize::MAX));
    let map = map_of(&[(u64::MAX, usize::MAX, MemoryType::Conventional)]);
    assert!(!is_sound(&map, usize::MAX));
    let map = map_of(&[(u64::MAX, usize::MAX, MemoryType::Unusable)]);
    assert!(is_sound(&map, 0));
}

#[test]
fn the_allocator_needs_the_words_up_to_the_highest_conventional_frame() {
    assert_eq!(physmap_words(&MemoryMap::default()), Some(0));
    let map = map_of(&[
        (0x1000, 0x2000, MemoryType::Conventional),
        (0x8800, 0x1000, MemoryType::Conventional),
        (0x20_0000, 0x1000, MemoryType::Unusable),
        (0x3000, 0x800, MemoryType::Conventional),
    ]);
    assert_eq!(physmap_words(&map), Some(0x9000 / 8));
    assert!(is_sound(&map, 0x9000 / 8));
    let map = map_of(&[(0x40_0000_0000 - 0x1000, 0xfff, MemoryType::Conventional)]);
    assert_eq!(physmap_words(&map), Some((0x40_0000_0000 - 0x1000) / 8));
    let map = map_of(&[(0x40_0000_0000 - 0x1000, 0x1000, MemoryType::Conventional)]);
    assert_eq!(physmap_words(&map), None);
    let map = map_of(&[(u64::MAX, usize::MAX, MemoryType::Conventional)]);
    assert_eq!(physmap_words(&map), None);
    let map = map_of(&[(u64::MAX, usize::MAX, MemoryType::Unusable)]);
    assert_eq!(physmap_words(&map), Some(0));
}
