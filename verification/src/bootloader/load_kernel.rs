//! Loading the kernel image.
//!
//! The image's program headers say which byte ranges of the file go where
//! in the kernel's address space. For each loadable segment the loader
//! works out the pages it covers, fills freshly allocated frames with the
//! segment's bytes, and maps the frames to the pages.

use vstd::prelude::*;
use crate::bootloader::address_space::AreaMapping;
use crate::memory_layout::PAGE_SIZE;
use crate::paging::{
    align_up, area_fits, canonical, lemma_page_sizes_are_powers_of_two, lemma_round_down,
    lemma_round_up, page_reachable, round_down, round_up, Page, PageFlags, PageMapping, PhysFrame,
    LOWER_HALF_TOP,
};

verus! {

/// Why an image cannot be loaded.
#[derive(Clone, Copy, Debug, PartialEq, Eq, Structural)]
pub enum LoadError {
    /// The image is not made for this machine.
    ForeignImage,
    /// A loadable segment is not aligned to the page size.
    Misaligned,
    /// A loadable segment takes up no memory.
    Empty,
    /// A loadable segment holds more bytes in the file than in memory.
    FileExceedsMemory,
    /// A loadable segment starts at an address that is not canonical.
    BadAddress,
    /// A loadable segment runs out of the address space.
    TooLarge,
    /// A loadable segment's bytes do not lie in the image.
    OutsideImage,
}

impl LoadError {
    /// The error in words.
    pub open spec fn message(self) -> Seq<char> {
        match self {
            LoadError::ForeignImage => "kernel image is not a 64-bit little-endian x86-64 image"@,
            LoadError::Misaligned => "loadable segment is not aligned to the page size"@,
            LoadError::Empty => "loadable segment takes up no memory"@,
            LoadError::FileExceedsMemory => "loadable segment is larger in the file than in memory"@,
            LoadError::BadAddress => "loadable segment starts at a non-canonical address"@,
            LoadError::TooLarge => "loadable segment runs out of the address space"@,
            LoadError::OutsideImage => "loadable segment lies outside the image"@,
        }
    }

    /// The error in words.
    pub fn describe(&self) -> (text: &'static str)
        ensures
            text@ == self.message(),
    {
        match self {
            LoadError::ForeignImage => "kernel image is not a 64-bit little-endian x86-64 image",
            LoadError::Misaligned => "loadable segment is not aligned to the page size",
            LoadError::Empty => "loadable segment takes up no memory",
            LoadError::FileExceedsMemory => "loadable segment is larger in the file than in memory",
            LoadError::BadAddress => "loadable segment starts at a non-canonical address",
            LoadError::TooLarge => "loadable segment runs out of the address space",
            LoadError::OutsideImage => "loadable segment lies outside the image",
        }
    }
}

/// The width of the addresses in an image.
#[derive(Clone, Copy, Debug, PartialEq, Eq, Structural)]
pub enum ImageClass {
    Bits32,
    Bits64,
    Other,
}

/// The byte order of an image.
#[derive(Clone, Copy, Debug, PartialEq, Eq, Structural)]
pub enum ImageData {
    LittleEndian,
    BigEndian,
    Other,
}

/// The machine that an image is made for.
#[derive(Clone, Copy, Debug, PartialEq, Eq, Structural)]
pub enum Machine {
    X86_64,
    Other,
}

/// The header of the image, as far as the loader reads it.
#[derive(Clone, Copy, Debug, PartialEq, Eq, Structural)]
pub struct ImageHeader {
    pub class: ImageClass,
    pub data: ImageData,
    pub machine: Machine,
    pub entry_point: u64,
}

impl ImageHeader {
    /// The image is made for the machine that the loader runs on.
    pub open spec fn native(self) -> bool {
        self.class == ImageClass::Bits64 && self.data == ImageData::LittleEndian && self.machine
            == Machine::X86_64
    }

    /// Whether the image is made for the machine that the loader runs on.
    pub fn is_native(&self) -> (native: bool)
        ensures
            native == self.native(),
    {
        let wide = match self.class {
            ImageClass::Bits64 => true,
            _ => false,
        };
        let little = match self.data {
            ImageData::LittleEndian => true,
            _ => false,
        };
        let ours = match self.machine {
            Machine::X86_64 => true,
            _ => false,
        };
        wide && little && ours
    }
}

#[derive(Clone, Copy, Debug, PartialEq, Eq, Structural)]
pub enum ProgramType {
    /// The segment is to be loaded.
    Load,
    /// Any other kind of segment: the loader passes over it.
    Other,
}

/// A program header of the image, as far as the loader reads it.
#[derive(Clone, Copy, Debug, PartialEq, Eq, Structural)]
pub struct ProgramHeader {
    pub kind: ProgramType,
    /// The permission bits as they stand in the image.
    pub flags: u32,
    /// Where the segment's bytes start in the image.
    pub offset: u64,
    pub virtual_addr: u64,
    pub file_size: u64,
    pub mem_size: u64,
    pub align: u64,
}

/// What the loader does for one loadable segment.
#[derive(Clone, Copy, Debug, PartialEq, Eq, Structural)]
pub struct Segment {
    /// Start of the page that holds the segment's first byte.
    pub page: u64,
    /// Where the segment's first byte lies in that page.
    pub dst_offset: u64,
    /// Bytes of memory that the segment's pages take up.
    pub mem_size: u64,
    pub num_frames: u64,
    /// Where the segment's bytes start in the image.
    pub file_offset: u64,
    pub file_size: u64,
    pub flags: PageFlags,
}

/// What the loader does for an image: where to enter it, and its loadable
/// segments in the order of the program headers.
pub struct KernelPlan {
    pub entry_point: u64,
    pub segments: Vec<Segment>,
}

/// `xmas_elf::program::Flags::is_write`: the bit of value 2 is set.
#[verifier::external_body]
fn is_write(flags: u32) -> (write: bool)
    ensures
        write == (flags & 0x2 == 0x2),
{
    xmas_elf::program::Flags(flags).is_write()
}

/// `xmas_elf::program::Flags::is_execute`: the bit of value 1 is set.
#[verifier::external_body]
fn is_execute(flags: u32) -> (execute: bool)
    ensures
        execute == (flags & 0x1 == 0x1),
{
    xmas_elf::program::Flags(flags).is_execute()
}

/// The mapping flags of a segment with the permission bits `flags`: a
/// segment that may be written is mapped writable, one that may not be
/// executed is mapped no-execute.
pub open spec fn flags_of(flags: u32) -> PageFlags {
    PageFlags { writable: flags & 0x2 == 0x2, no_execute: !(flags & 0x1 == 0x1) }
}

pub fn segment_flags(flags: u32) -> (page_flags: PageFlags)
    ensures
        page_flags == flags_of(flags),
{
    PageFlags { writable: is_write(flags), no_execute: !is_execute(flags) }
}

/// Bytes from the start of the segment's first page to the end of its last
/// one.
pub open spec fn span(header: ProgramHeader) -> int {
    round_up(header.mem_size + header.virtual_addr % PAGE_SIZE, PAGE_SIZE as int)
}

/// Every page of the segment exists: the segment ends in the address space
/// and does not reach into the gap between its two halves.
pub open spec fn span_fits(header: ProgramHeader) -> bool {
    let page = round_down(header.virtual_addr as int, PAGE_SIZE as int);
    &&& page + span(header) <= u64::MAX + 1
    &&& page < LOWER_HALF_TOP ==> page + span(header) <= LOWER_HALF_TOP
}

/// What `plan_segment` returns for a header and an image of `image_len`
/// bytes.
pub open spec fn planned(header: ProgramHeader, image_len: int) -> Result<Segment, LoadError> {
    if header.align != PAGE_SIZE {
        Err(LoadError::Misaligned)
    } else if header.mem_size == 0 {
        Err(LoadError::Empty)
    } else if header.file_size > header.mem_size {
        Err(LoadError::FileExceedsMemory)
    } else if !canonical(header.virtual_addr) {
        Err(LoadError::BadAddress)
    } else if !span_fits(header) {
        Err(LoadError::TooLarge)
    } else if header.offset + header.file_size > image_len {
        Err(LoadError::OutsideImage)
    } else {
        Ok(
            Segment {
                page: round_down(header.virtual_addr as int, PAGE_SIZE as int) as u64,
                dst_offset: (header.virtual_addr % PAGE_SIZE) as u64,
                mem_size: span(header) as u64,
                num_frames: (span(header) / (PAGE_SIZE as int)) as u64,
                file_offset: header.offset,
                file_size: header.file_size,
                flags: flags_of(header.flags),
            },
        )
    }
}

impl Segment {
    /// The segment is one that `plan_segment` gives for an image of
    /// `image_len` bytes.
    pub open spec fn valid(self, image_len: int) -> bool {
        &&& self.page % PAGE_SIZE == 0
        &&& canonical(self.page)
        &&& self.dst_offset < PAGE_SIZE
        &&& self.num_frames >= 1
        &&& self.mem_size == self.num_frames * PAGE_SIZE
        &&& self.dst_offset + self.file_size <= self.mem_size
        &&& self.file_offset + self.file_size <= image_len
        &&& forall|i: int| 0 <= i < self.num_frames ==> #[trigger] page_reachable(self.page, i)
    }

    /// The bytes that the segment's frames hold once it is loaded: the
    /// segment's bytes from the image at `dst_offset`, and zero before and
    /// behind them.
    pub open spec fn content(self, image: Seq<u8>) -> Seq<u8> {
        Seq::new(
            self.mem_size as nat,
            |i: int|
                if self.dst_offset <= i < self.dst_offset + self.file_size {
                    image[self.file_offset + i - self.dst_offset]
                } else {
                    0u8
                },
        )
    }

    /// The byte that is read at the virtual address `addr`, once frames that
    /// hold `memory` are mapped to the segment's pages.
    pub open spec fn read(self, memory: Seq<u8>, addr: int) -> u8 {
        memory[addr - self.page]
    }

    /// The area that maps the segment's pages to the frames from `frame`
    /// on.
    pub fn area(&self, frame: PhysFrame) -> (area: AreaMapping)
        ensures
            area == (AreaMapping {
                page: self.page,
                frame: frame@,
                count: self.num_frames,
                flags: self.flags,
            }),
            frame.valid(),
    {
        AreaMapping {
            page: self.page,
            frame: frame.start_address(),
            count: self.num_frames,
            flags: self.flags,
        }
    }

    /// The single mappings of the segment's pages to the frames from
    /// `frame` on, or `None` where the segment does not start at a page, or
    /// pages or frames do not exist.
    pub fn mappings(&self, frame: PhysFrame) -> (area: Option<Vec<PageMapping>>)
        requires
            self.num_frames <= usize::MAX,
        ensures
            area is Some <==> self.page % PAGE_SIZE == 0 && canonical(self.page) && area_fits(
                self.page,
                frame@,
                self.num_frames,
            ),
            area matches Some(mappings) ==> {
                &&& mappings@.len() == self.num_frames
                &&& forall|i: int|
                    0 <= i < self.num_frames ==> {
                        &&& (#[trigger] mappings@[i]).page@ == self.page + i * PAGE_SIZE
                        &&& mappings@[i].frame@ == frame@ + i * PAGE_SIZE
                        &&& mappings@[i].flags == self.flags
                    }
            },
    {
        self.area(frame).mappings()
    }

    /// The segment's bytes lie in an image of `image_len` bytes, and their
    /// place lies in the segment's memory.
    pub open spec fn loadable(self, image_len: int) -> bool {
        self.dst_offset + self.file_size <= self.mem_size && self.file_offset + self.file_size
            <= image_len
    }
}

/// Works out what to do for the loadable segment that `header` describes,
/// in an image of `image_len` bytes.
pub fn plan_segment(header: &ProgramHeader, image_len: usize) -> (segment: Result<
    Segment,
    LoadError,
>)
    ensures
        segment == planned(*header, image_len as int),
        segment matches Ok(s) ==> s.valid(image_len as int),
{
    if header.align != PAGE_SIZE {
        return Err(LoadError::Misaligned);
    }
    if header.mem_size == 0 {
        return Err(LoadError::Empty);
    }
    if header.file_size > header.mem_size {
        return Err(LoadError::FileExceedsMemory);
    }
    let page = match Page::containing_address(header.virtual_addr) {
        Some(page) => page,
        None => { return Err(LoadError::BadAddress); },
    };
    let page_start = page.start_address();
    let dst_offset = header.virtual_addr - page_start;
    proof {
        lemma_page_sizes_are_powers_of_two();
        lemma_round_down(header.virtual_addr as int, PAGE_SIZE as int);
        lemma_round_up(header.mem_size + dst_offset, PAGE_SIZE as int);
    }
    if header.mem_size > u64::MAX - 2 * PAGE_SIZE {
        return Err(LoadError::TooLarge);
    }
    // We need to take dst_offset into account, to make up for the bytes used for that.
    let mem_size = align_up(header.mem_size + dst_offset, PAGE_SIZE);
    let num_frames = mem_size / PAGE_SIZE;
    if page_start > u64::MAX - mem_size + 1 {
        return Err(LoadError::TooLarge);
    }
    if page_start < LOWER_HALF_TOP && mem_size > LOWER_HALF_TOP - page_start {
        return Err(LoadError::TooLarge);
    }
    if header.file_size > image_len as u64 || header.offset > image_len as u64 - header.file_size {
        return Err(LoadError::OutsideImage);
    }
    let segment = Segment {
        page: page_start,
        dst_offset,
        mem_size,
        num_frames,
        file_offset: header.offset,
        file_size: header.file_size,
        flags: segment_flags(header.flags),
    };
    proof {
        assert forall|i: int| 0 <= i < num_frames implies #[trigger] page_reachable(
            page_start,
            i,
        ) by {
            assert(i * PAGE_SIZE <= mem_size - PAGE_SIZE) by (nonlinear_arith)
                requires
                    0 <= i < num_frames,
                    mem_size == num_frames * PAGE_SIZE,
            ;
        }
    }
    Ok(segment)
}

/// Fills `memory`, the segment's frames, with the segment's content: zero
/// everywhere but for the bytes that the image holds for the segment.
///
/// Returns whether it did. It does not, and leaves `memory` as it is, where
/// `memory` is not as long as the segment says, or the segment's bytes do
/// not lie in the image or their place not in `memory`.
pub fn load_segment(image: &[u8], segment: &Segment, memory: &mut [u8]) -> (loaded: bool)
    ensures
        loaded <==> old(memory)@.len() == segment.mem_size && segment.loadable(
            image@.len() as int,
        ),
        loaded ==> final(memory)@ == segment.content(image@),
        !loaded ==> final(memory)@ == old(memory)@,
{
    let size = memory.len();
    let image_len = image.len();
    if size as u64 != segment.mem_size || segment.file_size > segment.mem_size
        || segment.dst_offset > segment.mem_size - segment.file_size || segment.file_size
        > image_len as u64 || segment.file_offset > image_len as u64 - segment.file_size {
        return false;
    }
    let mut i: usize = 0;
    // Zero destination
    while i < size
        invariant
            i <= size,
            size == memory@.len(),
            forall|k: int| 0 <= k < i ==> memory@[k] == 0,
        decreases size - i,
    {
        memory[i] = 0;
        i += 1;
    }
    // Copy data from file to it's final location
    let dst = segment.dst_offset as usize;
    let src = segment.file_offset as usize;
    let count = segment.file_size as usize;
    let mut j: usize = 0;
    while j < count
        invariant
            j <= count,
            size == memory@.len(),
            size == segment.mem_size,
            dst == segment.dst_offset,
            src == segment.file_offset,
            count == segment.file_size,
            dst + count <= size,
            src + count <= image@.len(),
            image_len == image@.len(),
            forall|k: int| 0 <= k < dst || dst + j <= k < size ==> memory@[k] == 0,
            forall|k: int| dst <= k < dst + j ==> memory@[k] == image@[src + k - dst],
        decreases count - j,
    {
        memory[dst + j] = image[src + j];
        j += 1;
    }
    assert(memory@ =~= segment.content(image@));
    true
}

/// What `load_kernel` makes of the program headers of an image of
/// `image_len` bytes: the plans of the loadable ones in their order, or the
/// error of the first that cannot be loaded.
pub open spec fn planned_segments(headers: Seq<ProgramHeader>, image_len: int) -> Result<
    Seq<Segment>,
    LoadError,
>
    decreases headers.len(),
{
    if headers.len() == 0 {
        Ok(Seq::empty())
    } else {
        match planned_segments(headers.drop_last(), image_len) {
            Err(error) => Err(error),
            Ok(segments) => match headers.last().kind {
                ProgramType::Other => Ok(segments),
                ProgramType::Load => match planned(headers.last(), image_len) {
                    Ok(segment) => Ok(segments.push(segment)),
                    Err(error) => Err(error),
                },
            },
        }
    }
}

/// What `load_kernel` makes of an image of `image_len` bytes with the given
/// header and program headers.
pub open spec fn planned_image(
    header: ImageHeader,
    headers: Seq<ProgramHeader>,
    image_len: int,
) -> Result<Seq<Segment>, LoadError> {
    if !header.native() {
        Err(LoadError::ForeignImage)
    } else {
        planned_segments(headers, image_len)
    }
}

/// Plans the loading of an image with the given header and program
/// headers.
///
/// Returns the entry point with the plan of each loadable segment. An image
/// for another machine is refused; else the first segment that cannot be
/// loaded gives the error.
pub fn load_kernel(image: &[u8], header: &ImageHeader, headers: &[ProgramHeader]) -> (plan: Result<
    KernelPlan,
    LoadError,
>)
    ensures
        match plan {
            Ok(p) => {
                &&& planned_image(*header, headers@, image@.len() as int) == Ok::<_, LoadError>(
                    p.segments@,
                )
                &&& p.entry_point == header.entry_point
                &&& forall|i: int|
                    0 <= i < p.segments@.len() ==> (#[trigger] p.segments@[i]).valid(
                        image@.len() as int,
                    )
            },
            Err(error) => planned_image(*header, headers@, image@.len() as int) == Err::<
                Seq<Segment>,
                _,
            >(error),
        },
{
    if !header.is_native() {
        return Err(LoadError::ForeignImage);
    }
    let mut segments: Vec<Segment> = Vec::new();
    let mut i: usize = 0;
    assert(headers@.take(0).len() == 0);
    while i < headers.len()
        invariant
            i <= headers@.len(),
            header.native(),
            planned_segments(headers@.take(i as int), image@.len() as int) == Ok::<_, LoadError>(
                segments@,
            ),
            forall|k: int|
                0 <= k < segments@.len() ==> (#[trigger] segments@[k]).valid(image@.len() as int),
        decreases headers@.len() - i,
    {
        let header = headers[i];
        proof {
            assert(headers@.take(i + 1).drop_last() == headers@.take(i as int));
            assert(headers@.take(i + 1).last() == headers@[i as int]);
        }
        match header.kind {
            ProgramType::Load => {
                match plan_segment(&header, image.len()) {
                    Ok(segment) => {
                        segments.push(segment);
                    },
                    Err(error) => {
                        proof {
                            lemma_first_error_stays(headers@, i + 1, image@.len() as int);
                        }
                        return Err(error);
                    },
                }
            },
            ProgramType::Other => {},
        }
        i += 1;
    }
    assert(headers@.take(i as int) == headers@);
    Ok(KernelPlan { entry_point: header.entry_point, segments })
}

/// An error among the first `upto` headers is the error of them all.
proof fn lemma_first_error_stays(headers: Seq<ProgramHeader>, upto: int, image_len: int)
    requires
        0 <= upto <= headers.len(),
        planned_segments(headers.take(upto), image_len) is Err,
    ensures
        planned_segments(headers, image_len) == planned_segments(headers.take(upto), image_len),
    decreases headers.len(),
{
    if upto == headers.len() {
        assert(headers.take(upto) == headers);
    } else {
        assert(headers.drop_last().take(upto) == headers.take(upto));
        lemma_first_error_stays(headers.drop_last(), upto, image_len);
    }
}

/// A loaded segment reads back as the image says: at each address of the
/// segment that the file covers stands the file's byte, at each address
/// behind those stands zero, and each of these addresses is mapped.
pub proof fn lemma_segment_reads_back(image: Seq<u8>, header: ProgramHeader, i: int)
    requires
        planned(header, image.len() as int) is Ok,
        0 <= i < header.mem_size,
    ensures
        ({
            let segment = planned(header, image.len() as int)->Ok_0;
            let addr = header.virtual_addr + i;
            &&& segment.page <= addr < segment.page + segment.num_frames * PAGE_SIZE
            &&& segment.read(segment.content(image), addr) == if i < header.file_size {
                image[header.offset + i]
            } else {
                0u8
            }
        }),
{
    lemma_round_down(header.virtual_addr as int, PAGE_SIZE as int);
    lemma_round_up(header.mem_size + header.virtual_addr % PAGE_SIZE, PAGE_SIZE as int);
}

} // verus!
