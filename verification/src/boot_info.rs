//! The boot information: the one structure that the loader hands to the
//! kernel. Its layout is fixed and holds nothing of dynamic size.

use vstd::prelude::*;

verus! {

/// The largest number of entries that a [`MemoryMap`] holds.
pub const MAX_MEMORY_MAP_ENTRIES: usize = 256;

#[derive(Copy, Clone, Debug, PartialEq, Eq, Structural)]
pub enum MemoryType {
    Unusable,
    Conventional,
}

#[derive(Debug, Clone, Copy, PartialEq, Eq, Structural)]
pub struct MemoryMapEntry {
    pub start: u64,
    pub size: usize,
    pub memory_type: MemoryType,
}

impl MemoryMapEntry {
    /// The first address behind the entry.
    pub open spec fn end(self) -> int {
        self.start + self.size
    }
}

impl Default for MemoryMapEntry {
    fn default() -> (entry: Self)
        ensures
            entry == (MemoryMapEntry { start: 0, size: 0, memory_type: MemoryType::Unusable }),
    {
        MemoryMapEntry { start: 0, size: 0, memory_type: MemoryType::Unusable }
    }
}

/// An ordered list of at most [`MAX_MEMORY_MAP_ENTRIES`] memory ranges.
///
/// Entries are only ever appended. The view of a map is the sequence of the
/// entries that were appended, oldest first.
#[derive(Debug)]
pub struct MemoryMap {
    num_entries: usize,
    entries: [MemoryMapEntry; 256],
}

impl View for MemoryMap {
    type V = Seq<MemoryMapEntry>;

    closed spec fn view(&self) -> Seq<MemoryMapEntry> {
        self.entries@.subrange(0, self.num_entries as int)
    }
}

impl MemoryMap {
    #[verifier::type_invariant]
    spec fn in_capacity(self) -> bool {
        self.num_entries <= MAX_MEMORY_MAP_ENTRIES
    }

    /// Appends `entry`. A full map refuses it and stays as it was.
    pub fn add_entry(&mut self, entry: MemoryMapEntry) -> (added: Result<(), ()>)
        ensures
            old(self)@.len() < MAX_MEMORY_MAP_ENTRIES ==> added is Ok && final(self)@ == old(
                self,
            )@.push(entry),
            old(self)@.len() >= MAX_MEMORY_MAP_ENTRIES ==> added is Err && final(self)@ == old(
                self,
            )@,
            final(self)@.len() <= MAX_MEMORY_MAP_ENTRIES,
    {
        proof {
            use_type_invariant(&*self);
        }
        if self.num_entries >= MAX_MEMORY_MAP_ENTRIES {
            return Err(());
        }
        self.entries[self.num_entries] = entry;
        self.num_entries += 1;
        Ok(())
    }

    /// The entries that were appended, oldest first.
    pub fn entries(&self) -> (entries: &[MemoryMapEntry])
        ensures
            entries@ == self@,
            entries@.len() <= MAX_MEMORY_MAP_ENTRIES,
    {
        proof {
            use_type_invariant(self);
        }
        let all = self.entries.as_slice();
        &all[0..self.num_entries]
    }

    /// The number of entries in the map.
    pub fn len(&self) -> (len: usize)
        ensures
            len == self@.len(),
            len <= MAX_MEMORY_MAP_ENTRIES,
    {
        proof {
            use_type_invariant(self);
        }
        self.num_entries
    }
}

impl Default for MemoryMap {
    fn default() -> (map: Self)
        ensures
            map@ == Seq::<MemoryMapEntry>::empty(),
    {
        MemoryMap {
            num_entries: 0,
            entries: [MemoryMapEntry { start: 0, size: 0, memory_type: MemoryType::Unusable }; 256],
        }
    }
}

#[derive(Debug, Clone, Copy, PartialEq, Eq, Structural)]
pub struct FrameBufferInfo {
    pub width: usize,
    pub height: usize,
    pub stride: usize,
}

impl Default for FrameBufferInfo {
    fn default() -> (info: Self)
        ensures
            info == (FrameBufferInfo { width: 0, height: 0, stride: 0 }),
    {
        FrameBufferInfo { width: 0, height: 0, stride: 0 }
    }
}

/// Where the pixels of the display are mapped, and their geometry.
///
/// The pixel memory belongs to the display: it is mapped, never freed.
#[derive(Debug, Copy, Clone, PartialEq, Eq, Structural)]
pub struct FrameBuffer {
    pub buffer_base: u64,
    pub buffer_size: usize,
    pub info: FrameBufferInfo,
}

impl FrameBuffer {
    pub fn info(&self) -> (info: FrameBufferInfo)
        ensures
            info == self.info,
    {
        self.info
    }
}

impl Default for FrameBuffer {
    fn default() -> (frame_buffer: Self)
        ensures
            frame_buffer == (FrameBuffer {
                buffer_base: 0,
                buffer_size: 0,
                info: FrameBufferInfo { width: 0, height: 0, stride: 0 },
            }),
    {
        FrameBuffer {
            buffer_base: 0,
            buffer_size: 0,
            info: FrameBufferInfo { width: 0, height: 0, stride: 0 },
        }
    }
}

#[derive(Debug)]
pub struct BootInfo {
    pub frame_buffer: FrameBuffer,
    pub memory_map: MemoryMap,
    pub console_font_base: u64,
    pub console_font_size: usize,
}

impl Default for BootInfo {
    fn default() -> (boot_info: Self)
        ensures
            boot_info.frame_buffer == (FrameBuffer {
                buffer_base: 0,
                buffer_size: 0,
                info: FrameBufferInfo { width: 0, height: 0, stride: 0 },
            }),
            boot_info.memory_map@ == Seq::<MemoryMapEntry>::empty(),
            boot_info.console_font_base == 0,
            boot_info.console_font_size == 0,
    {
        BootInfo {
            frame_buffer: FrameBuffer::default(),
            memory_map: MemoryMap::default(),
            console_font_base: 0,
            console_font_size: 0,
        }
    }
}

} // verus!
