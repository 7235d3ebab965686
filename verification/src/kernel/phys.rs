//! The kernel's allocator of physical frames.
//!
//! Free frames form a stack. The allocator itself holds the top frame and a
//! count; the link from each free frame to the one below it is written into
//! the first word of the frame itself. Physical memory is handed in as a
//! slice of 64-bit words, word `i` being the eight bytes at physical address
//! `8 * i`: that is what the map of physical memory at `PHYSMAP_BASE` shows.

use vstd::prelude::*;
use crate::boot_info::{MemoryMap, MemoryMapEntry, MemoryType};
use crate::memory_layout::{PAGE_SIZE, PHYSMAP_BASE, PHYSMAP_SIZE};
use crate::paging::{
    align_down, align_up, physical, round_down, round_up, PhysFrame, PHYS_ADDR_LIMIT,
};

verus! {

/// The link word of the lowest frame of the stack. No frame starts there.
pub const NO_FRAME: u64 = 0xFFFF_FFFF_FFFF_FFFF;

/// The index of the word in which the frame at `frame` holds its link.
pub open spec fn link_index(frame: u64) -> int {
    frame as int / 8
}

/// `frame` is the start of a frame whose link word lies in a memory of
/// `words` words.
pub open spec fn frame_in(frame: u64, words: nat) -> bool {
    frame % PAGE_SIZE == 0 && physical(frame) && link_index(frame) < words
}

/// The link that the entry number `i` of a stack holds: the entry below it.
pub open spec fn link_after(free: Seq<u64>, i: int) -> u64 {
    if i + 1 < free.len() {
        free[i + 1]
    } else {
        NO_FRAME
    }
}

/// `free`, top first, is a stack of distinct frames that is threaded
/// through `mem`.
pub open spec fn linked(free: Seq<u64>, mem: Seq<u64>) -> bool {
    &&& free.no_duplicates()
    &&& forall|i: int| 0 <= i < free.len() ==> frame_in(#[trigger] free[i], mem.len())
    &&& forall|i: int|
        0 <= i < free.len() ==> mem[link_index(free[i])] == #[trigger] link_after(free, i)
}

/// Distinct numbers below `bound` are at most `bound` many.
proof fn lemma_distinct_below(numbers: Seq<int>, bound: int)
    requires
        0 <= bound,
        numbers.no_duplicates(),
        forall|i: int| 0 <= i < numbers.len() ==> 0 <= #[trigger] numbers[i] < bound,
    ensures
        numbers.len() <= bound,
    decreases numbers.len(),
{
    if numbers.len() > 0 {
        assert(0 <= numbers[0] < bound);
        let top = bound - 1;
        if exists|i: int| 0 <= i < numbers.len() && numbers[i] == top {
            let at = choose|i: int| 0 <= i < numbers.len() && numbers[i] == top;
            let rest = numbers.remove(at);
            assert forall|i: int| 0 <= i < rest.len() implies 0 <= #[trigger] rest[i] < top by {
                if i < at {
                    assert(rest[i] == numbers[i]);
                } else {
                    assert(rest[i] == numbers[i + 1]);
                }
            }
            assert forall|i: int, j: int|
                0 <= i < rest.len() && 0 <= j < rest.len() && i != j implies rest[i] != rest[j] by {
                let from_i = if i < at {
                    i
                } else {
                    i + 1
                };
                let from_j = if j < at {
                    j
                } else {
                    j + 1
                };
                assert(rest[i] == numbers[from_i]);
                assert(rest[j] == numbers[from_j]);
            }
            lemma_distinct_below(rest, top);
        } else {
            let rest = numbers.drop_last();
            assert forall|i: int| 0 <= i < rest.len() implies 0 <= #[trigger] rest[i] < top by {
                assert(rest[i] == numbers[i]);
            }
            assert forall|i: int, j: int|
                0 <= i < rest.len() && 0 <= j < rest.len() && i != j implies rest[i] != rest[j] by {
                assert(rest[i] == numbers[i]);
                assert(rest[j] == numbers[j]);
            }
            lemma_distinct_below(rest, top);
        }
    }
}

/// A stack of distinct frames in a memory of `words` words has at most
/// `words` frames.
pub proof fn lemma_stack_bounded(free: Seq<u64>, words: nat)
    requires
        free.no_duplicates(),
        forall|i: int| 0 <= i < free.len() ==> frame_in(#[trigger] free[i], words),
    ensures
        free.len() <= words,
{
    let indices = Seq::new(free.len(), |i: int| link_index(free[i]));
    assert forall|i: int, j: int|
        0 <= i < indices.len() && 0 <= j < indices.len() && i != j implies indices[i]
        != indices[j] by {
        assert(frame_in(free[i], words));
        assert(frame_in(free[j], words));
        assert(free[i] != free[j]);
    }
    assert forall|i: int| 0 <= i < indices.len() implies 0 <= #[trigger] indices[i] < words by {
        assert(frame_in(free[i], words));
    }
    lemma_distinct_below(indices, words as int);
}

/// What `allocate_frame` returns for a stack.
pub open spec fn allocated(free: Seq<u64>) -> Option<u64> {
    if free.len() > 0 {
        Some(free[0])
    } else {
        None
    }
}

/// The stack that `allocate_frame` leaves.
pub open spec fn after_allocate(free: Seq<u64>) -> Seq<u64> {
    if free.len() > 0 {
        free.skip(1)
    } else {
        free
    }
}

/// The stack that `deallocate_frame` leaves.
pub open spec fn after_deallocate(free: Seq<u64>, frame: u64) -> Seq<u64> {
    seq![frame] + free
}

/// What `calls` calls of `allocate_frame` in a row return, first call first.
pub open spec fn allocations(free: Seq<u64>, calls: nat) -> Seq<Option<u64>>
    decreases calls,
{
    if calls == 0 {
        Seq::empty()
    } else {
        seq![allocated(free)] + allocations(after_allocate(free), (calls - 1) as nat)
    }
}

/// The virtual address at which the kernel finds the physical address
/// `phys`, if the address space reaches that far.
pub fn phys_to_virt(phys: u64) -> (virt: Option<u64>)
    ensures
        virt is Some <==> phys + PHYSMAP_BASE <= u64::MAX,
        virt matches Some(v) ==> v == phys + PHYSMAP_BASE,
{
    phys.checked_add(PHYSMAP_BASE)
}

/// The stack of free frames. Its view is the stack, top first.
pub struct StackFrameAllocator {
    next: Option<PhysFrame>,
    count: usize,
    free: Ghost<Seq<u64>>,
}

impl View for StackFrameAllocator {
    type V = Seq<u64>;

    closed spec fn view(&self) -> Seq<u64> {
        self.free@
    }
}

impl StackFrameAllocator {
    #[verifier::type_invariant]
    spec fn coherent(self) -> bool {
        &&& self.count == self.free@.len()
        &&& self.free@.len() == 0 ==> self.next is None
        &&& self.free@.len() > 0 ==> (self.next matches Some(f) && f@ == self.free@[0])
    }

    /// The allocator agrees with the memory `mem`: the stack's frames are
    /// distinct, and the first word of each holds the start of the frame
    /// below it.
    pub open spec fn wf(self, mem: Seq<u64>) -> bool {
        linked(self@, mem)
    }

    /// An allocator without frames. It agrees with every memory.
    pub fn new() -> (allocator: StackFrameAllocator)
        ensures
            allocator@ == Seq::<u64>::empty(),
            forall|mem: Seq<u64>| #[trigger] allocator.wf(mem),
    {
        StackFrameAllocator { next: None, count: 0, free: Ghost(Seq::empty()) }
    }

    /// The number of free frames.
    pub fn count(&self) -> (count: usize)
        ensures
            count == self@.len(),
    {
        proof {
            use_type_invariant(self);
        }
        self.count
    }

    /// Takes the top frame off the stack, or returns `None` if no frame is
    /// free. `physmap` is physical memory.
    pub fn allocate_frame(&mut self, physmap: &[u64]) -> (frame: Option<PhysFrame>)
        requires
            old(self).wf(physmap@),
        ensures
            final(self).wf(physmap@),
            final(self)@ == after_allocate(old(self)@),
            match frame {
                Some(f) => allocated(old(self)@) == Some(f@) && f.valid(),
                None => allocated(old(self)@) is None,
            },
    {
        proof {
            use_type_invariant(&*self);
        }
        match self.next {
            Some(frame) => {
                let ghost free = self.free@;
                assert(frame_in(free[0], physmap@.len()));
                let link = physmap[(frame.start_address() / 8) as usize];
                assert(link == link_after(free, 0));
                let next = if link == NO_FRAME {
                    None
                } else {
                    assert(frame_in(free[1], physmap@.len()));
                    PhysFrame::from_start_address(link)
                };
                proof {
                    if link != NO_FRAME {
                        assert(free.skip(1)[0] == free[1]);
                    }
                }
                *self = StackFrameAllocator {
                    next,
                    count: self.count - 1,
                    free: Ghost(free.skip(1)),
                };
                proof {
                    let rest = free.skip(1);
                    assert forall|i: int| 0 <= i < rest.len() implies frame_in(
                        #[trigger] rest[i],
                        physmap@.len(),
                    ) by {
                        assert(rest[i] == free[i + 1]);
                    }
                    assert forall|i: int| 0 <= i < rest.len() implies physmap@[link_index(
                        rest[i],
                    )] == #[trigger] link_after(rest, i) by {
                        assert(rest[i] == free[i + 1]);
                        assert(link_after(rest, i) == link_after(free, i + 1));
                    }
                    assert forall|i: int, j: int|
                        0 <= i < rest.len() && 0 <= j < rest.len() && i != j implies rest[i]
                        != rest[j] by {
                        assert(rest[i] == free[i + 1]);
                        assert(rest[j] == free[j + 1]);
                    }
                }
                Some(frame)
            },
            None => None,
        }
    }

    /// Puts `frame` on top of the stack, and writes the link to the frame
    /// below into its first word.
    ///
    /// The caller answers for it that the frame is not free already.
    pub fn deallocate_frame(&mut self, physmap: &mut [u64], frame: PhysFrame)
        requires
            old(self).wf(old(physmap)@),
            link_index(frame@) < old(physmap)@.len(),
            !old(self)@.contains(frame@),
        ensures
            final(self).wf(final(physmap)@),
            final(self)@ == after_deallocate(old(self)@, frame@),
            final(physmap)@ == old(physmap)@.update(
                link_index(frame@),
                link_after(final(self)@, 0),
            ),
    {
        proof {
            use_type_invariant(&*self);
        }
        let ghost free = self.free@;
        let ghost mem = physmap@;
        let link = match self.next {
            Some(top) => top.start_address(),
            None => NO_FRAME,
        };
        let addr = frame.start_address();
        proof {
            let grown = seq![addr] + free;
            assert forall|i: int| 0 <= i < grown.len() implies frame_in(
                #[trigger] grown[i],
                mem.len(),
            ) by {
                if i > 0 {
                    assert(grown[i] == free[i - 1]);
                }
            }
            assert forall|i: int, j: int|
                0 <= i < grown.len() && 0 <= j < grown.len() && i != j implies grown[i]
                != grown[j] by {
                if i > 0 {
                    assert(grown[i] == free[i - 1]);
                    assert(free.contains(free[i - 1]));
                }
                if j > 0 {
                    assert(grown[j] == free[j - 1]);
                    assert(free.contains(free[j - 1]));
                }
            }
            lemma_stack_bounded(grown, mem.len());
        }
        physmap[(addr / 8) as usize] = link;
        *self = StackFrameAllocator {
            next: Some(frame),
            count: self.count + 1,
            free: Ghost(seq![addr] + free),
        };
        proof {
            let grown = seq![addr] + free;
            assert(link == link_after(grown, 0)) by {
                if free.len() > 0 {
                    assert(grown[1] == free[0]);
                }
            }
            assert forall|i: int| 0 <= i < grown.len() implies physmap@[link_index(grown[i])]
                == #[trigger] link_after(grown, i) by {
                if i > 0 {
                    assert(grown[i] == free[i - 1]);
                    assert(frame_in(free[i - 1], mem.len()));
                    assert(free.contains(free[i - 1]));
                    assert(free[i - 1] != addr);
                    assert(link_index(free[i - 1]) != link_index(addr));
                    assert(mem[link_index(free[i - 1])] == link_after(free, i - 1));
                    assert(link_after(grown, i) == link_after(free, i - 1)) by {
                        if i + 1 < grown.len() {
                            assert(grown[i + 1] == free[i]);
                        }
                    }
                }
            }
        }
    }
}

/// Start of the first frame that lies in a conventional entry.
pub open spec fn first_frame(entry: MemoryMapEntry) -> int {
    round_up(entry.start as int, PAGE_SIZE as int)
}

/// First address behind the last frame that lies in a conventional entry.
pub open spec fn frames_top(entry: MemoryMapEntry) -> int {
    round_down(entry.end(), PAGE_SIZE as int)
}

/// Number of frames that a conventional entry gives: those that lie in it
/// with all their bytes.
pub open spec fn frame_count(entry: MemoryMapEntry) -> int {
    if frames_top(entry) > first_frame(entry) {
        (frames_top(entry) - first_frame(entry)) / (PAGE_SIZE as int)
    } else {
        0
    }
}

/// The frames of an entry fill the range from its first frame to the end of
/// its last, and lie in the entry.
pub proof fn lemma_frame_range(entry: MemoryMapEntry)
    ensures
        first_frame(entry) % (PAGE_SIZE as int) == 0,
        frames_top(entry) % (PAGE_SIZE as int) == 0,
        entry.start <= first_frame(entry) < entry.start + PAGE_SIZE,
        entry.end() - PAGE_SIZE < frames_top(entry) <= entry.end(),
        frame_count(entry) >= 0,
        frame_count(entry) > 0 <==> first_frame(entry) < frames_top(entry),
        frame_count(entry) > 0 ==> first_frame(entry) + frame_count(entry) * PAGE_SIZE
            == frames_top(entry),
{
    crate::paging::lemma_round_up(entry.start as int, PAGE_SIZE as int);
    crate::paging::lemma_round_down(entry.end(), PAGE_SIZE as int);
    let first = first_frame(entry);
    let top = frames_top(entry);
    assert(first % 0x1000 == 0 && top % 0x1000 == 0);
    if first < top {
        assert((top - first) % 0x1000 == 0);
        assert(top - first >= 0x1000);
    }
}

/// `count` frames in a row from `first` on, the highest first: the stack
/// that they form once they were put on it in ascending order.
pub open spec fn stacked(first: int, count: int) -> Seq<u64> {
    Seq::new(count as nat, |i: int| (first + (count - 1 - i) * PAGE_SIZE) as u64)
}

/// The frames that an entry gives, the highest first. Only conventional
/// memory gives any.
pub open spec fn entry_frames(entry: MemoryMapEntry) -> Seq<u64> {
    if entry.memory_type == MemoryType::Conventional {
        stacked(first_frame(entry), frame_count(entry))
    } else {
        Seq::empty()
    }
}

/// The stack `free` after the frames of `entries` were put on it, entry by
/// entry and each entry's frames in ascending order.
pub open spec fn stack_after(entries: Seq<MemoryMapEntry>, free: Seq<u64>) -> Seq<u64>
    decreases entries.len(),
{
    if entries.len() == 0 {
        free
    } else {
        entry_frames(entries.last()) + stack_after(entries.drop_last(), free)
    }
}

/// `frame` is one of the frames that the conventional entry `entry` gives.
pub open spec fn frame_of_entry(entry: MemoryMapEntry, frame: u64) -> bool {
    entry.memory_type == MemoryType::Conventional && exists|k: int|
        0 <= k < frame_count(entry) && frame == first_frame(entry) + #[trigger] (k * PAGE_SIZE)
}

/// A frame gets on the stack from a conventional entry only: memory that
/// the map calls unusable is never handed out.
pub proof fn lemma_only_conventional_frames(
    entries: Seq<MemoryMapEntry>,
    free: Seq<u64>,
    index: int,
)
    requires
        0 <= index < stack_after(entries, free).len(),
        forall|i: int|
            0 <= i < entries.len() && (#[trigger] entries[i]).memory_type
                == MemoryType::Conventional ==> entries[i].end() < PHYS_ADDR_LIMIT,
    ensures
        free.contains(stack_after(entries, free)[index]) || exists|i: int|
            0 <= i < entries.len() && frame_of_entry(
                #[trigger] entries[i],
                stack_after(entries, free)[index],
            ),
    decreases entries.len(),
{
    let frame = stack_after(entries, free)[index];
    if entries.len() == 0 {
        assert(free[index] == frame);
    } else {
        let last = entries.last();
        let front = entries.drop_last();
        if index < entry_frames(last).len() {
            let k = frame_count(last) - 1 - index;
            lemma_frame_range(last);
            assert(0 <= k * PAGE_SIZE <= (frame_count(last) - 1) * PAGE_SIZE) by (nonlinear_arith)
                requires
                    0 <= k <= frame_count(last) - 1,
                    PAGE_SIZE == 0x1000,
            ;
            assert(frame == first_frame(last) + k * PAGE_SIZE);
            assert(frame_of_entry(entries[entries.len() - 1], frame));
        } else {
            let below = index - entry_frames(last).len();
            assert(stack_after(front, free)[below] == frame);
            lemma_only_conventional_frames(front, free, below);
            if !free.contains(frame) {
                let i = choose|i: int|
                    0 <= i < front.len() && frame_of_entry(#[trigger] front[i], frame);
                assert(entries[i] == front[i]);
            }
        }
    }
}

/// A frame that an entry gives lies in the entry with all its bytes.
pub proof fn lemma_frame_inside_entry(entry: MemoryMapEntry, frame: u64)
    requires
        frame_of_entry(entry, frame),
    ensures
        entry.start <= frame,
        frame + PAGE_SIZE <= entry.end(),
{
    lemma_frame_range(entry);
    let k = choose|k: int|
        0 <= k < frame_count(entry) && frame == first_frame(entry) + #[trigger] (k * PAGE_SIZE);
    assert(0 <= k * PAGE_SIZE <= (frame_count(entry) - 1) * PAGE_SIZE) by (nonlinear_arith)
        requires
            0 <= k <= frame_count(entry) - 1,
            PAGE_SIZE == 0x1000,
    ;
}

/// Some frame of the stack `free` holds its link in the word number `index`.
pub open spec fn is_link_word(free: Seq<u64>, index: int) -> bool {
    exists|i: int| 0 <= i < free.len() && link_index(#[trigger] free[i]) == index
}

/// The frames of the entries from number `from` on go on top of the stack
/// that the entries before them have built.
proof fn lemma_stack_after_split(entries: Seq<MemoryMapEntry>, from: int, free: Seq<u64>)
    requires
        0 <= from <= entries.len(),
    ensures
        stack_after(entries, free) == stack_after(entries.skip(from), Seq::empty()) + stack_after(
            entries.take(from),
            free,
        ),
    decreases entries.len(),
{
    if from == entries.len() {
        assert(entries.take(from) == entries);
        assert(entries.skip(from).len() == 0);
        assert(stack_after(entries, free) == Seq::<u64>::empty() + stack_after(entries, free));
    } else {
        let front = entries.drop_last();
        lemma_stack_after_split(front, from, free);
        assert(entries.skip(from).drop_last() == front.skip(from));
        assert(entries.skip(from).last() == entries.last());
        assert(entries.take(from) == front.take(from));
        assert(stack_after(entries, free) == entry_frames(entries.last()) + (stack_after(
            front.skip(from),
            Seq::empty(),
        ) + stack_after(front.take(from), free)));
        assert(stack_after(entries, free) == (entry_frames(entries.last()) + stack_after(
            front.skip(from),
            Seq::empty(),
        )) + stack_after(front.take(from), free));
    }
}

/// Puts every frame that lies in a conventional entry of `map` on the
/// stack, entry by entry and each entry's frames in ascending order.
/// `physmap` is physical memory.
///
/// The caller answers for it that these frames are distinct, that none of
/// them is free already, and that all of them lie in `physmap`.
pub fn init(allocator: &mut StackFrameAllocator, map: &MemoryMap, physmap: &mut [u64])
    requires
        old(allocator).wf(old(physmap)@),
        forall|i: int|
            0 <= i < map@.len() && (#[trigger] map@[i]).memory_type == MemoryType::Conventional
                ==> map@[i].end() < PHYS_ADDR_LIMIT,
        stack_after(map@, old(allocator)@).no_duplicates(),
        forall|i: int|
            0 <= i < stack_after(map@, old(allocator)@).len() ==> link_index(
                #[trigger] stack_after(map@, old(allocator)@)[i],
            ) < old(physmap)@.len(),
    ensures
        final(allocator).wf(final(physmap)@),
        final(allocator)@ == stack_after(map@, old(allocator)@),
        final(physmap)@.len() == old(physmap)@.len(),
        forall|index: int|
            0 <= index < old(physmap)@.len() && !#[trigger] is_link_word(final(allocator)@, index)
                ==> final(physmap)@[index] == old(physmap)@[index],
{
    let ghost free0 = allocator@;
    let ghost mem0 = physmap@;
    let ghost target = stack_after(map@, free0);
    let entries = map.entries();
    let mut m: usize = 0;
    proof {
        lemma_stack_after_split(map@, 0, free0);
        assert(map@.take(0).len() == 0);
        assert(map@.skip(0) == map@);
    }
    while m < entries.len()
        invariant
            m <= entries@.len(),
            entries@ == map@,
            allocator.wf(physmap@),
            physmap@.len() == mem0.len(),
            allocator@ == stack_after(map@.take(m as int), free0),
            target == stack_after(map@.skip(m as int), Seq::empty()) + allocator@,
            target == stack_after(map@, free0),
            target.no_duplicates(),
            forall|i: int| 0 <= i < target.len() ==> link_index(#[trigger] target[i]) < mem0.len(),
            forall|i: int|
                0 <= i < map@.len() && (#[trigger] map@[i]).memory_type == MemoryType::Conventional
                    ==> map@[i].end() < PHYS_ADDR_LIMIT,
            forall|index: int|
                0 <= index < mem0.len() && !#[trigger] is_link_word(allocator@, index)
                    ==> physmap@[index] == mem0[index],
        decreases entries@.len() - m,
    {
        let entry = entries[m];
        let ghost above = stack_after(map@.skip(m + 1), Seq::empty());
        let ghost below = allocator@;
        proof {
            lemma_stack_after_split(map@.skip(m as int), 1, Seq::empty());
            assert(map@.skip(m as int).skip(1) == map@.skip(m + 1));
            assert(map@.skip(m as int).take(1).drop_last().len() == 0);
            assert(map@.skip(m as int).take(1).last() == map@[m as int]);
            assert(stack_after(map@.skip(m as int).take(1).drop_last(), Seq::empty())
                == Seq::<u64>::empty());
            assert(stack_after(map@.skip(m as int).take(1), Seq::empty()) == entry_frames(
                map@[m as int],
            ) + Seq::<u64>::empty());
            assert(entry_frames(map@[m as int]) + Seq::<u64>::empty() == entry_frames(
                map@[m as int],
            ));
            assert(target == (above + entry_frames(entry)) + below);
            assert(map@.take(m + 1).drop_last() == map@.take(m as int));
            assert(map@.take(m + 1).last() == map@[m as int]);
        }
        match entry.memory_type {
            MemoryType::Conventional => {
                let ghost first = first_frame(entry);
                let ghost count = frame_count(entry);
                proof {
                    lemma_frame_range(entry);
                    crate::paging::lemma_page_sizes_are_powers_of_two();
                }
                let end = match PhysFrame::containing_address(entry.start + entry.size as u64) {
                    Some(frame) => frame,
                    None => vstd::pervasive::unreached(),
                };
                let first_address = align_up(entry.start, PAGE_SIZE);
                let start = if first_address < end.start_address() {
                    match PhysFrame::containing_address(first_address) {
                        Some(frame) => frame,
                        None => vstd::pervasive::unreached(),
                    }
                } else {
                    end
                };
                let mut frame = start;
                let mut k: Ghost<int> = Ghost(0);
                while frame.start_address() < end.start_address()
                    invariant
                        0 <= k@ <= count,
                        count >= 0,
                        count > 0 ==> first == start@,
                        count == 0 ==> frame@ == end@,
                        count > 0 ==> end@ == first + count * PAGE_SIZE,
                        count > 0 ==> frame@ == first + k@ * PAGE_SIZE,
                        frame.valid(),
                        end.valid(),
                        allocator.wf(physmap@),
                        physmap@.len() == mem0.len(),
                        allocator@ == stacked(first, k@) + below,
                        target == (above + stacked(first, count)) + below,
                        target.no_duplicates(),
                        forall|i: int|
                            0 <= i < target.len() ==> link_index(#[trigger] target[i]) < mem0.len(),
                        forall|index: int|
                            0 <= index < mem0.len() && !#[trigger] is_link_word(allocator@, index)
                                ==> physmap@[index] == mem0[index],
                    decreases count - k@,
                {
                    let ghost before = allocator@;
                    let ghost mem = physmap@;
                    proof {
                        let at = above.len() + count - 1 - k@;
                        assert(target[at] == stacked(first, count)[count - 1 - k@]);
                        assert(target[at] == frame@);
                        assert forall|j: int| 0 <= j < before.len() implies before[j]
                            != frame@ by {
                            assert(target[at + 1 + j] == before[j]) by {
                                if j < k@ {
                                    assert(before[j] == stacked(first, k@)[j]);
                                    assert(target[at + 1 + j] == stacked(first, count)[count - k@
                                        + j]);
                                } else {
                                    assert(before[j] == below[j - k@]);
                                    assert(target[at + 1 + j] == below[j - k@]);
                                }
                            }
                        }
                        assert(link_index(target[at]) < mem0.len());
                    }
                    allocator.deallocate_frame(physmap, frame);
                    proof {
                        assert(allocator@ == stacked(first, k@ + 1) + below) by {
                            assert(allocator@ =~= stacked(first, k@ + 1) + below);
                        }
                        assert forall|index: int|
                            0 <= index < mem0.len() && !#[trigger] is_link_word(
                                allocator@,
                                index,
                            ) implies physmap@[index] == mem0[index] by {
                            assert(allocator@[0] == frame@);
                            assert(index != link_index(frame@));
                            if is_link_word(before, index) {
                                let i = choose|i: int|
                                    0 <= i < before.len() && link_index(#[trigger] before[i])
                                        == index;
                                assert(allocator@[i + 1] == before[i]);
                            }
                            assert(mem[index] == mem0[index]);
                        }
                    }
                    frame = match frame.offset(1) {
                        Some(next) => next,
                        None => vstd::pervasive::unreached(),
                    };
                    proof {
                        k@ = k@ + 1;
                    }
                }
                proof {
                    assert(k@ == count);
                }
            },
            MemoryType::Unusable => {
                proof {
                    assert(entry_frames(entry) + below == below);
                    assert(above + entry_frames(entry) == above);
                }
            },
        }
        proof {
            assert(allocator@ == entry_frames(entry) + below);
        }
        m += 1;
    }
    proof {
        assert(map@.take(m as int) == map@);
    }
}

/// The conventional entry number `i` of `entries` can be handed out from a
/// memory of `words` words: it ends at a physical address, its frames lie
/// in the memory, and they lie apart from the frames of every conventional
/// entry before it.
pub open spec fn entry_sound(entries: Seq<MemoryMapEntry>, i: int, words: nat) -> bool {
    let entry = entries[i];
    entry.memory_type == MemoryType::Conventional ==> {
        &&& entry.end() < PHYS_ADDR_LIMIT
        &&& frames_top(entry) <= words * 8
        &&& forall|j: int|
            0 <= j < i && (#[trigger] entries[j]).memory_type == MemoryType::Conventional
                ==> frames_top(entries[j]) <= first_frame(entry) || frames_top(entry)
                <= first_frame(entries[j])
    }
}

/// The frames of the conventional entries of `entries` can be handed out
/// from a memory of `words` words.
pub open spec fn sound_map(entries: Seq<MemoryMapEntry>, words: nat) -> bool {
    forall|i: int| 0 <= i < entries.len() ==> #[trigger] entry_sound(entries, i, words)
}

/// First address behind the frames that the conventional entries of
/// `entries` give: the end of the memory that the allocator reads and
/// writes.
pub open spec fn conventional_top(entries: Seq<MemoryMapEntry>) -> int
    decreases entries.len(),
{
    if entries.len() == 0 {
        0
    } else {
        let rest = conventional_top(entries.drop_last());
        let last = entries.last();
        if last.memory_type == MemoryType::Conventional && frames_top(last) > rest {
            frames_top(last)
        } else {
            rest
        }
    }
}

/// Each conventional entry of `entries` ends in the window that the layout
/// keeps for the map of physical memory.
pub open spec fn in_window(entries: Seq<MemoryMapEntry>) -> bool {
    forall|i: int|
        0 <= i < entries.len() && (#[trigger] entries[i]).memory_type == MemoryType::Conventional
            ==> entries[i].end() < PHYSMAP_SIZE
}

/// The frames of every conventional entry lie below `conventional_top`.
pub proof fn lemma_conventional_top(entries: Seq<MemoryMapEntry>, index: int)
    requires
        0 <= index < entries.len(),
        entries[index].memory_type == MemoryType::Conventional,
    ensures
        0 <= frames_top(entries[index]) <= conventional_top(entries),
    decreases entries.len(),
{
    crate::paging::lemma_round_down(entries[index].end(), PAGE_SIZE as int);
    if index < entries.len() - 1 {
        lemma_conventional_top(entries.drop_last(), index);
    }
}

/// Number of words of physical memory that the allocator needs to see for
/// `map`: those up to the end of the highest frame of conventional memory.
/// `None` where conventional memory reaches out of the window that the
/// layout keeps for the map of physical memory.
pub fn physmap_words(map: &MemoryMap) -> (words: Option<usize>)
    ensures
        words is Some <==> in_window(map@) && conventional_top(map@) / 8 <= usize::MAX,
        words matches Some(w) ==> w * 8 == conventional_top(map@),
{
    let entries = map.entries();
    let mut top: u64 = 0;
    let mut i: usize = 0;
    assert(map@.take(0).len() == 0);
    while i < entries.len()
        invariant
            i <= entries@.len(),
            entries@ == map@,
            in_window(map@.take(i as int)),
            top == conventional_top(map@.take(i as int)),
            top < PHYSMAP_SIZE,
            top % PAGE_SIZE == 0,
        decreases entries@.len() - i,
    {
        let entry = entries[i];
        proof {
            assert(map@.take(i + 1).drop_last() == map@.take(i as int));
            assert(map@.take(i + 1).last() == map@[i as int]);
        }
        match entry.memory_type {
            MemoryType::Unusable => {},
            MemoryType::Conventional => {
                if entry.start >= PHYSMAP_SIZE || entry.size as u64 >= PHYSMAP_SIZE - entry.start {
                    assert(!in_window(map@)) by {
                        assert(map@[i as int].end() >= PHYSMAP_SIZE);
                    }
                    return None;
                }
                proof {
                    lemma_frame_range(entry);
                    crate::paging::lemma_page_sizes_are_powers_of_two();
                }
                let frames_end = align_down(entry.start + entry.size as u64, PAGE_SIZE);
                if frames_end > top {
                    top = frames_end;
                }
            },
        }
        proof {
            assert forall|k: int|
                0 <= k < i + 1 && (#[trigger] map@.take(i + 1)[k]).memory_type
                    == MemoryType::Conventional implies map@.take(i + 1)[k].end()
                < PHYSMAP_SIZE by {
                if k < i {
                    assert(map@.take(i as int)[k] == map@[k]);
                }
            }
        }
        i += 1;
    }
    proof {
        assert(map@.take(i as int) == map@);
    }
    if top / 8 > usize::MAX as u64 {
        return None;
    }
    Some((top / 8) as usize)
}

/// Whether the frames of the conventional entries of `map` can be handed
/// out from a physical memory of `words` words: whether `init` may be
/// called on an allocator without frames.
pub fn is_sound(map: &MemoryMap, words: usize) -> (sound: bool)
    ensures
        sound == sound_map(map@, words as nat),
{
    let entries = map.entries();
    let mut i: usize = 0;
    while i < entries.len()
        invariant
            i <= entries@.len(),
            entries@ == map@,
            forall|k: int| 0 <= k < i ==> #[trigger] entry_sound(map@, k, words as nat),
        decreases entries@.len() - i,
    {
        let entry = entries[i];
        match entry.memory_type {
            MemoryType::Unusable => {},
            MemoryType::Conventional => {
                if entry.start >= PHYS_ADDR_LIMIT || entry.size as u64 >= PHYS_ADDR_LIMIT
                    - entry.start {
                    assert(!entry_sound(map@, i as int, words as nat));
                    return false;
                }
                proof {
                    lemma_frame_range(entry);
                    crate::paging::lemma_page_sizes_are_powers_of_two();
                }
                let first = align_up(entry.start, PAGE_SIZE);
                let top = align_down(entry.start + entry.size as u64, PAGE_SIZE);
                if top / 8 > words as u64 {
                    assert(!entry_sound(map@, i as int, words as nat));
                    return false;
                }
                let mut j: usize = 0;
                while j < i
                    invariant
                        j <= i < entries@.len(),
                        entries@ == map@,
                        entry == map@[i as int],
                        entry.memory_type == MemoryType::Conventional,
                        entry.end() < PHYS_ADDR_LIMIT,
                        first == first_frame(entry),
                        top == frames_top(entry),
                        forall|k: int| 0 <= k < i ==> #[trigger] entry_sound(map@, k, words as nat),
                        forall|k: int|
                            0 <= k < j && (#[trigger] map@[k]).memory_type
                                == MemoryType::Conventional ==> frames_top(map@[k]) <= first
                                || top <= first_frame(map@[k]),
                    decreases i - j,
                {
                    let other = entries[j];
                    match other.memory_type {
                        MemoryType::Unusable => {},
                        MemoryType::Conventional => {
                            assert(entry_sound(map@, j as int, words as nat));
                            proof {
                                lemma_frame_range(other);
                                crate::paging::lemma_page_sizes_are_powers_of_two();
                            }
                            let other_first = align_up(other.start, PAGE_SIZE);
                            let other_top = align_down(other.start + other.size as u64, PAGE_SIZE);
                            if !(other_top <= first || top <= other_first) {
                                assert(!entry_sound(map@, i as int, words as nat));
                                return false;
                            }
                        },
                    }
                    j += 1;
                }
            },
        }
        assert(entry_sound(map@, i as int, words as nat));
        i += 1;
    }
    true
}

/// A sound map gives frames that are distinct and lie in the memory: what
/// `init` asks of the caller, for an allocator without frames.
pub proof fn lemma_sound_map(entries: Seq<MemoryMapEntry>, words: nat)
    requires
        sound_map(entries, words),
    ensures
        stack_after(entries, Seq::empty()).no_duplicates(),
        forall|i: int|
            0 <= i < stack_after(entries, Seq::empty()).len() ==> frame_in(
                #[trigger] stack_after(entries, Seq::empty())[i],
                words,
            ),
        forall|i: int|
            0 <= i < entries.len() && (#[trigger] entries[i]).memory_type
                == MemoryType::Conventional ==> entries[i].end() < PHYS_ADDR_LIMIT,
    decreases entries.len(),
{
    assert forall|i: int|
        0 <= i < entries.len() && (#[trigger] entries[i]).memory_type
            == MemoryType::Conventional implies entries[i].end() < PHYS_ADDR_LIMIT by {
        assert(entry_sound(entries, i, words));
    }
    if entries.len() > 0 {
        let last = entries.last();
        let front = entries.drop_last();
        assert forall|i: int| 0 <= i < front.len() implies #[trigger] entry_sound(
            front,
            i,
            words,
        ) by {
            assert(entry_sound(entries, i, words));
            assert forall|j: int| 0 <= j < i implies front[j] == entries[j] by {}
        }
        lemma_sound_map(front, words);
        let above = entry_frames(last);
        let below = stack_after(front, Seq::empty());
        let all = stack_after(entries, Seq::empty());
        assert(all == above + below);
        assert(entry_sound(entries, entries.len() - 1, words));
        if last.memory_type == MemoryType::Conventional {
            lemma_frame_range(last);
        }
        assert forall|p: int| 0 <= p < above.len() implies first_frame(last) <= #[trigger] above[p]
            < frames_top(last) && above[p] % PAGE_SIZE == 0 && above[p] == first_frame(last) + (
        frame_count(last) - 1 - p) * PAGE_SIZE by {
            let k = frame_count(last) - 1 - p;
            assert(0 <= k * PAGE_SIZE <= (frame_count(last) - 1) * PAGE_SIZE) by (nonlinear_arith)
                requires
                    0 <= k <= frame_count(last) - 1,
                    PAGE_SIZE == 0x1000,
            ;
        }
        assert forall|i: int| 0 <= i < all.len() implies frame_in(#[trigger] all[i], words) by {
            if i < above.len() {
                assert(all[i] == above[i]);
            } else {
                assert(all[i] == below[i - above.len()]);
            }
        }
        assert forall|p: int, q: int| 0 <= p < all.len() && 0 <= q < all.len() && p != q implies all[p]
            != all[q] by {
            if p < above.len() && q < above.len() {
                assert(all[p] == above[p] && all[q] == above[q]);
                assert((frame_count(last) - 1 - p) * PAGE_SIZE != (frame_count(last) - 1 - q)
                    * PAGE_SIZE);
            } else if p >= above.len() && q >= above.len() {
                assert(all[p] == below[p - above.len()] && all[q] == below[q - above.len()]);
            } else {
                let (high, low) = if p < above.len() {
                    (p, q)
                } else {
                    (q, p)
                };
                assert(all[high] == above[high]);
                assert(all[low] == below[low - above.len()]);
                lemma_only_conventional_frames(front, Seq::empty(), low - above.len());
                let frame = below[low - above.len()];
                assert(!Seq::<u64>::empty().contains(frame));
                let j = choose|j: int|
                    0 <= j < front.len() && frame_of_entry(#[trigger] front[j], frame);
                assert(entries[j] == front[j]);
                let k = choose|k: int|
                    0 <= k < frame_count(front[j]) && frame == first_frame(front[j]) + #[trigger] (k
                        * PAGE_SIZE);
                assert(entry_sound(entries, j, words));
                lemma_frame_range(front[j]);
                assert(0 <= k * PAGE_SIZE <= (frame_count(front[j]) - 1) * PAGE_SIZE)
                    by (nonlinear_arith)
                    requires
                        0 <= k <= frame_count(front[j]) - 1,
                        PAGE_SIZE == 0x1000,
                ;
                assert(first_frame(front[j]) <= frame < frames_top(front[j]));
            }
        }
    }
}

/// Frames that are allocated one after the other, with none given back in
/// between, are pairwise distinct.
pub proof fn lemma_no_double_allocation(free: Seq<u64>, calls: nat, i: int, j: int)
    requires
        free.no_duplicates(),
        0 <= i < j < calls,
    ensures
        allocations(free, calls).len() == calls,
        allocations(free, calls)[i] is Some ==> allocations(free, calls)[i] != allocations(
            free,
            calls,
        )[j],
{
    lemma_allocations(free, calls, i);
    lemma_allocations(free, calls, j);
}

/// The call number `k` of a row of allocations returns the entry number
/// `k` of the stack, or `None` where the stack is shorter.
pub proof fn lemma_allocations(free: Seq<u64>, calls: nat, k: int)
    requires
        0 <= k < calls,
    ensures
        allocations(free, calls).len() == calls,
        allocations(free, calls)[k] == if k < free.len() {
            Some(free[k])
        } else {
            None
        },
    decreases calls,
{
    lemma_allocations_len(free, calls);
    if k > 0 {
        lemma_allocations(after_allocate(free), (calls - 1) as nat, k - 1);
    }
}

proof fn lemma_allocations_len(free: Seq<u64>, calls: nat)
    ensures
        allocations(free, calls).len() == calls,
    decreases calls,
{
    if calls > 0 {
        lemma_allocations_len(after_allocate(free), (calls - 1) as nat);
    }
}

/// A frame that was just given back is the next one to be allocated, and
/// taking it leaves the stack as it was before.
pub proof fn lemma_lifo(free: Seq<u64>, frame: u64)
    ensures
        allocated(after_deallocate(free, frame)) == Some(frame),
        after_allocate(after_deallocate(free, frame)) == free,
{
    assert(after_deallocate(free, frame).skip(1) =~= free);
}

/// The allocator reads nothing but the first word of each free frame:
/// it agrees with every memory that holds the same words there.
pub proof fn lemma_untouched_by_other_writes(
    allocator: StackFrameAllocator,
    mem: Seq<u64>,
    other: Seq<u64>,
)
    requires
        allocator.wf(mem),
        other.len() == mem.len(),
        forall|i: int|
            0 <= i < allocator@.len() ==> other[link_index(#[trigger] allocator@[i])]
                == mem[link_index(allocator@[i])],
    ensures
        allocator.wf(other),
{
    let free = allocator@;
    assert forall|i: int| 0 <= i < free.len() implies other[link_index(free[i])]
        == #[trigger] link_after(free, i) by {
        assert(frame_in(free[i], mem.len()));
    }
}

} // verus!
