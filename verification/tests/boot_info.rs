use unx::boot_info::{
    BootInfo, FrameBuffer, FrameBufferInfo, MemoryMap, MemoryMapEntry, MemoryType,
    MAX_MEMORY_MAP_ENTRIES,
};

fn entry(index: usize) -> MemoryMapEntry {
    MemoryMapEntry {
        start: 0x1000 * index as u64,
        size: 0x1000,
        memory_type: if index % 2 == 0 { MemoryType::Conventional } else { MemoryType::Unusable },
    }
}

#[test]
fn a_new_memory_map_is_empty() {
    let map = MemoryMap::default();
    assert_eq!(map.len(), 0);
    assert!(map.entries().is_empty());
}

#[test]
fn entries_come_back_in_the_order_they_were_added() {
    let mut map = MemoryMap::default();
    for index in 0..5 {
        assert_eq!(map.add_entry(entry(index)), Ok(()));
    }
    assert_eq!(map.len(), 5);
    let entries = map.entries();
    assert_eq!(entries.len(), 5);
    for index in 0..5 {
        assert_eq!(entries[index], entry(index));
    }
}

#[test]
fn the_memory_map_takes_256_entries_and_refuses_the_next() {
    let mut map = MemoryMap::default();
    for index in 0..MAX_MEMORY_MAP_ENTRIES {
        assert_eq!(map.add_entry(entry(index)), Ok(()));
    }
    assert_eq!(MAX_MEMORY_MAP_ENTRIES, 256);
    assert_eq!(map.len(), 256);

    let refused = MemoryMapEntry { start: 0xdead_0000, size: 7, memory_type: MemoryType::Unusable };
    assert_eq!(map.add_entry(refused), Err(()));
    assert_eq!(map.add_entry(refused), Err(()));

    let entries = map.entries();
    assert_eq!(entries.len(), 256);
    for index in 0..256 {
        assert_eq!(entries[index], entry(index));
    }
}

#[test]
fn default_entries_are_unusable_and_empty() {
    let entry = MemoryMapEntry::default();
    assert_eq!(entry.start, 0);
    assert_eq!(entry.size, 0);
    assert_eq!(entry.memory_type, MemoryType::Unusable);
}

#[test]
fn the_frame_buffer_hands_out_its_geometry() {
    let info = FrameBufferInfo { width: 1024, height: 768, stride: 1280 };
    let frame_buffer = FrameBuffer { buffer_base: 0xffff_ffc0_8000_0000, buffer_size: 4 * 1280 * 768, info };
    assert_eq!(frame_buffer.info(), info);
    assert_eq!(FrameBuffer::default().info(), FrameBufferInfo { width: 0, height: 0, stride: 0 });
}

#[test]
fn default_boot_info_is_blank() {
    let boot_info = BootInfo::default();
    assert_eq!(boot_info.frame_buffer, FrameBuffer::default());
    assert_eq!(boot_info.memory_map.len(), 0);
    assert_eq!(boot_info.console_font_base, 0);
    assert_eq!(boot_info.console_font_size, 0);
}
