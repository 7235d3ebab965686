//! Bitmap fonts in the PC Screen Font format, version 2.
//!
//! A font is a header of 32 bytes, eight little-endian words, followed by
//! the glyphs, each `bytes_per_glyph` bytes long. A glyph is stored row by
//! row, each row in whole bytes, the leftmost pixel in the highest bit.

use vstd::prelude::*;
use byteorder::{ByteOrder, LittleEndian};

verus! {

/// The word that every font starts with.
pub const MAGIC: u32 = 0x864a_b572;

/// Length of the header in bytes.
pub const HEADER_SIZE: usize = 32;

#[derive(Debug, Clone, Copy, PartialEq, Eq, Structural)]
pub enum FontError {
    InvalidMagic,
    UnknownVersion,
    InvalidHeaderSize,
}

/// What the header says of the glyphs.
#[derive(Debug, Clone, Copy, PartialEq, Eq, Structural)]
pub struct FontInfo {
    pub width: u32,
    pub height: u32,
    pub bytes_per_glyph: u32,
    pub num_glyphs: u32,
}

/// The little-endian word that starts at `at`.
pub open spec fn word_at(data: Seq<u8>, at: int) -> u32 {
    (data[at] + data[at + 1] * 0x100 + data[at + 2] * 0x1_0000 + data[at + 3] * 0x100_0000) as u32
}

/// `byteorder::LittleEndian::read_u32`: the first four bytes of `buf` as a
/// little-endian word. The crate panics on fewer than four bytes.
#[verifier::external_body]
fn read_u32(buf: &[u8]) -> (word: u32)
    requires
        buf@.len() >= 4,
    ensures
        word == word_at(buf@, 0),
{
    LittleEndian::read_u32(buf)
}

/// What `FontInfo::new` makes of a header.
pub open spec fn parsed(data: Seq<u8>) -> Result<FontInfo, FontError> {
    if word_at(data, 0) != MAGIC {
        Err(FontError::InvalidMagic)
    } else if word_at(data, 4) != 0 {
        Err(FontError::UnknownVersion)
    } else if word_at(data, 8) != 32 {
        Err(FontError::InvalidHeaderSize)
    } else {
        Ok(
            FontInfo {
                width: word_at(data, 28),
                height: word_at(data, 24),
                bytes_per_glyph: word_at(data, 20),
                num_glyphs: word_at(data, 16),
            },
        )
    }
}

impl FontInfo {
    /// Reads the header that `data` starts with.
    pub fn new(data: &[u8]) -> (info: Result<FontInfo, FontError>)
        requires
            data@.len() >= HEADER_SIZE,
        ensures
            info == parsed(data@),
    {
        let magic = read_u32(&data[0..4]);
        let version = read_u32(&data[4..8]);
        let header_size = read_u32(&data[8..12]);
        let _flags = read_u32(&data[12..16]);
        let num_glyphs = read_u32(&data[16..20]);
        let bytes_per_glyph = read_u32(&data[20..24]);
        let height = read_u32(&data[24..28]);
        let width = read_u32(&data[28..32]);

        if magic != MAGIC {
            return Err(FontError::InvalidMagic);
        }
        if version != 0 {
            return Err(FontError::UnknownVersion);
        }
        if header_size != 32 {
            return Err(FontError::InvalidHeaderSize);
        }
        Ok(FontInfo { width, height, bytes_per_glyph, num_glyphs })
    }

    /// Bytes that one row of a glyph takes up.
    pub open spec fn stride(self) -> int {
        (self.width + 7) / 8
    }
}

/// A glyph as a value: its size and its bytes.
pub struct GlyphView {
    pub width: u32,
    pub height: u32,
    pub stride: u32,
    pub data: Seq<u8>,
}

impl GlyphView {
    /// The index of the byte that holds the pixel at column `x` of row `y`.
    pub open spec fn byte_index(self, x: u32, y: u32) -> int {
        y * self.stride + x / 8
    }

    /// What `Glyph::pixel` returns.
    pub open spec fn pixel(self, x: u32, y: u32) -> Option<bool> {
        if x > self.width || y > self.height {
            None
        } else {
            Some((self.data[self.byte_index(x, y)] >> ((7 - (x % 8)) as u8)) & 1 != 0)
        }
    }

    /// `pixel` finds the byte of every pixel of the glyph.
    pub open spec fn readable(self) -> bool {
        forall|x: u32, y: u32|
            x < self.width && y < self.height ==> #[trigger] self.byte_index(x, y)
                < self.data.len()
    }
}

#[derive(Debug)]
pub struct Glyph<'a> {
    width: u32,
    height: u32,
    stride: u32,
    data: &'a [u8],
}

impl<'a> View for Glyph<'a> {
    type V = GlyphView;

    closed spec fn view(&self) -> GlyphView {
        GlyphView { width: self.width, height: self.height, stride: self.stride, data: self.data@ }
    }
}

impl<'a> Glyph<'a> {
    /// Whether the pixel at column `x` of row `y` is set. `None` where `x`
    /// is greater than the width or `y` greater than the height.
    pub fn pixel(&self, x: u32, y: u32) -> (set: Option<bool>)
        requires
            x <= self@.width && y <= self@.height ==> self@.byte_index(x, y) < self@.data.len(),
        ensures
            set == self@.pixel(x, y),
    {
        if x > self.width || y > self.height {
            return None;
        }
        assert(y * self.stride <= 0xFFFF_FFFF * 0xFFFF_FFFF) by (nonlinear_arith)
            requires
                0 <= y <= 0xFFFF_FFFF,
                0 <= self.stride <= 0xFFFF_FFFF,
        ;
        let at = y as u64 * self.stride as u64 + (x / 8) as u64;
        let byte = self.data[at as usize];
        let bit = (byte >> ((7 - (x % 8)) as u8)) & 0b01 != 0;
        Some(bit)
    }

    pub fn height(&self) -> (height: u32)
        ensures
            height == self@.height,
    {
        self.height
    }

    pub fn width(&self) -> (width: u32)
        ensures
            width == self@.width,
    {
        self.width
    }
}

/// A font as a value: what its header says, and all of its bytes.
pub struct FontView {
    pub info: FontInfo,
    pub data: Seq<u8>,
}

impl FontView {
    /// Where the glyph of the character with the code `code` starts.
    pub open spec fn glyph_start(self, code: int) -> int {
        HEADER_SIZE + code * self.info.bytes_per_glyph
    }

    /// What `Font::glyph` returns for the character with the code `code`.
    pub open spec fn glyph(self, code: int) -> Option<GlyphView> {
        if code > self.info.num_glyphs {
            None
        } else {
            Some(
                GlyphView {
                    width: self.info.width,
                    height: self.info.height,
                    stride: self.info.stride() as u32,
                    data: self.data.subrange(
                        self.glyph_start(code),
                        self.glyph_start(code) + self.info.bytes_per_glyph,
                    ),
                },
            )
        }
    }

    /// `Font::glyph` finds the bytes of the character with the code `code`.
    pub open spec fn holds(self, code: int) -> bool {
        self.info.width + 7 <= u32::MAX && self.glyph_start(code) + self.info.bytes_per_glyph
            <= self.data.len()
    }

    /// The font holds every glyph that `Font::glyph` hands out, and each of
    /// them holds all of its rows.
    pub open spec fn complete(self) -> bool {
        &&& self.info.width + 7 <= u32::MAX
        &&& self.glyph_start(self.info.num_glyphs as int) + self.info.bytes_per_glyph
            <= self.data.len()
        &&& self.info.height * self.info.stride() <= self.info.bytes_per_glyph
    }
}

#[derive(Debug)]
pub struct Font<'a> {
    info: FontInfo,
    data: &'a [u8],
}

impl<'a> View for Font<'a> {
    type V = FontView;

    closed spec fn view(&self) -> FontView {
        FontView { info: self.info, data: self.data@ }
    }
}

impl<'a> Font<'a> {
    /// This is implemented for PSF version 2.
    pub fn new(data: &'a [u8]) -> (font: Result<Font<'a>, FontError>)
        requires
            data@.len() >= HEADER_SIZE,
        ensures
            match font {
                Ok(f) => parsed(data@) == Ok::<_, FontError>(f@.info) && f@.data == data@,
                Err(error) => parsed(data@) == Err::<FontInfo, _>(error),
            },
    {
        match FontInfo::new(data) {
            Ok(info) => Ok(Font { info, data }),
            Err(error) => Err(error),
        }
    }

    pub fn width(&self) -> (width: u32)
        ensures
            width == self@.info.width,
    {
        self.info.width
    }

    pub fn height(&self) -> (height: u32)
        ensures
            height == self@.info.height,
    {
        self.info.height
    }

    /// The glyph of `character`, or `None` where its code is greater than
    /// the number of glyphs.
    pub fn glyph(&self, character: char) -> (glyph: Option<Glyph<'a>>)
        requires
            character as int <= self@.info.num_glyphs ==> self@.holds(character as int),
        ensures
            match glyph {
                Some(g) => self@.glyph(character as int) == Some(g@),
                None => self@.glyph(character as int) is None,
            },
    {
        let code = character as u32;
        if code > self.info.num_glyphs {
            return None;
        }
        let bytes_per_glyph = self.info.bytes_per_glyph as usize;
        assert(code * bytes_per_glyph <= 0xFFFF_FFFF * 0xFFFF_FFFF) by (nonlinear_arith)
            requires
                0 <= code <= 0xFFFF_FFFF,
                0 <= bytes_per_glyph <= 0xFFFF_FFFF,
        ;
        let len = self.data.len();
        assert(code as int == character as int);
        assert(self@.glyph_start(code as int) == 32 + code * bytes_per_glyph);
        let start = (32 + code as u64 * bytes_per_glyph as u64) as usize;
        Some(
            Glyph {
                width: self.info.width,
                height: self.info.height,
                stride: (self.info.width + 7) / 8,
                data: &self.data[start..start + bytes_per_glyph],
            },
        )
    }

    /// Whether the font holds all that its header promises.
    pub fn is_complete(&self) -> (complete: bool)
        ensures
            complete == self@.complete(),
    {
        if self.info.width > u32::MAX - 7 {
            return false;
        }
        let stride = ((self.info.width + 7) / 8) as u64;
        assert((self.info.num_glyphs + 1) * self.info.bytes_per_glyph <= 0x1_0000_0000
            * 0xFFFF_FFFF) by (nonlinear_arith)
            requires
                0 <= self.info.num_glyphs <= 0xFFFF_FFFF,
                0 <= self.info.bytes_per_glyph <= 0xFFFF_FFFF,
        ;
        assert(self.info.height * stride <= 0xFFFF_FFFF * 0xFFFF_FFFF) by (nonlinear_arith)
            requires
                0 <= self.info.height <= 0xFFFF_FFFF,
                0 <= stride <= 0xFFFF_FFFF,
        ;
        let glyphs = (self.info.num_glyphs as u64 + 1) * self.info.bytes_per_glyph as u64;
        assert(glyphs == self@.glyph_start(self@.info.num_glyphs as int) + self@.info.bytes_per_glyph
            - HEADER_SIZE) by (nonlinear_arith)
            requires
                glyphs == (self@.info.num_glyphs + 1) * self@.info.bytes_per_glyph,
                self@.glyph_start(self@.info.num_glyphs as int) == HEADER_SIZE
                    + self@.info.num_glyphs * self@.info.bytes_per_glyph,
        ;
        if self.data.len() < HEADER_SIZE || glyphs > (self.data.len() - HEADER_SIZE) as u64 {
            return false;
        }
        self.info.height as u64 * stride <= self.info.bytes_per_glyph as u64
    }
}

/// In a complete font every glyph can be looked up, and every pixel of it
/// can be read.
pub proof fn lemma_complete_font(font: FontView, code: int, x: u32, y: u32)
    requires
        font.complete(),
        0 <= code <= font.info.num_glyphs,
    ensures
        font.holds(code),
        font.glyph(code) is Some,
        x < font.info.width && y < font.info.height ==> font.glyph(code)->Some_0.byte_index(x, y)
            < font.glyph(code)->Some_0.data.len(),
{
    let bytes = font.info.bytes_per_glyph as int;
    assert(code * bytes <= font.info.num_glyphs * bytes) by (nonlinear_arith)
        requires
            0 <= code <= font.info.num_glyphs,
            bytes >= 0,
    ;
    if x < font.info.width && y < font.info.height {
        let stride = font.info.stride();
        assert(x / 8 < stride);
        assert(y * stride + stride <= font.info.height * stride) by (nonlinear_arith)
            requires
                0 <= y < font.info.height,
                stride >= 0,
        ;
    }
}

} // verus!
