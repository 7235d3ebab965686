//! The kernel's text console on the frame buffer.
//!
//! The pixel memory is handed in as a slice of bytes, four for each pixel
//! in the order blue, green, red and one byte that is left alone; a row of
//! pixels takes up `stride` pixels.

use vstd::prelude::*;
use crate::boot_info::{FrameBuffer, FrameBufferInfo};
use crate::psf::{Font, FontView, GlyphView};

verus! {

pub const BYTES_PER_PIXEL: usize = 4;

#[derive(Clone, Copy, Debug, PartialEq, Eq, Structural)]
pub struct Color {
    pub r: u8,
    pub g: u8,
    pub b: u8,
}

impl Color {
    pub fn new(r: u8, g: u8, b: u8) -> (color: Self)
        ensures
            color == (Color { r, g, b }),
    {
        Self { r, g, b }
    }

    pub fn black() -> (color: Self)
        ensures
            color == (Color { r: 0, g: 0, b: 0 }),
    {
        Color::new(0, 0, 0)
    }

    pub fn white() -> (color: Self)
        ensures
            color == (Color { r: 255, g: 255, b: 255 }),
    {
        Color::new(255, 255, 255)
    }
}

pub open spec fn black() -> Color {
    Color { r: 0, g: 0, b: 0 }
}

pub open spec fn white() -> Color {
    Color { r: 255, g: 255, b: 255 }
}

/// Where the bytes of the pixel at column `x` of row `y` start.
pub open spec fn pixel_index(info: FrameBufferInfo, x: int, y: int) -> int {
    y * info.stride * 4 + x * 4
}

/// The bytes of every pixel on the screen lie in a buffer of `len` bytes.
pub open spec fn fits(info: FrameBufferInfo, len: int) -> bool {
    forall|x: int, y: int|
        0 <= x < info.width && 0 <= y < info.height ==> #[trigger] pixel_index(info, x, y) + 2
            < len
}

/// The buffer after the pixel at column `x` of row `y` got the colour
/// `color`. A pixel that is not on the screen is not drawn.
pub open spec fn put_pixel(buffer: Seq<u8>, info: FrameBufferInfo, x: int, y: int, color: Color) -> Seq<
    u8,
> {
    if x >= info.width || y >= info.height {
        buffer
    } else {
        let at = pixel_index(info, x, y);
        buffer.update(at, color.b).update(at + 1, color.g).update(at + 2, color.r)
    }
}

/// The buffer after the first `columns` pixels of row `y` got the colour
/// `color`, from the left to the right.
pub open spec fn fill_row(
    buffer: Seq<u8>,
    info: FrameBufferInfo,
    y: int,
    columns: int,
    color: Color,
) -> Seq<u8>
    decreases columns,
{
    if columns <= 0 {
        buffer
    } else {
        put_pixel(fill_row(buffer, info, y, columns - 1, color), info, columns - 1, y, color)
    }
}

/// The buffer after every pixel of the first `rows` rows of the screen got
/// the colour `color`, row by row from the top.
pub open spec fn fill_rows(buffer: Seq<u8>, info: FrameBufferInfo, rows: int, color: Color) -> Seq<
    u8,
>
    decreases rows,
{
    if rows <= 0 {
        buffer
    } else {
        fill_row(fill_rows(buffer, info, rows - 1, color), info, rows - 1, info.width as int, color)
    }
}

/// The colour in which a pixel of a glyph is drawn: white where it is set,
/// black where it is not.
pub open spec fn glyph_color(glyph: GlyphView, x: int, y: int) -> Color {
    if glyph.pixel(x as u32, y as u32) == Some(true) {
        white()
    } else {
        black()
    }
}

/// The buffer after the first `columns` pixels of the row `row` of a glyph
/// were drawn, the glyph's upper left corner being at column `left` of row
/// `top` of the screen.
pub open spec fn draw_glyph_row(
    buffer: Seq<u8>,
    info: FrameBufferInfo,
    glyph: GlyphView,
    left: int,
    top: int,
    row: int,
    columns: int,
) -> Seq<u8>
    decreases columns,
{
    if columns <= 0 {
        buffer
    } else {
        put_pixel(
            draw_glyph_row(buffer, info, glyph, left, top, row, columns - 1),
            info,
            left + columns - 1,
            top + row,
            glyph_color(glyph, columns - 1, row),
        )
    }
}

/// The buffer after the first `rows` rows of a glyph were drawn.
pub open spec fn draw_glyph_rows(
    buffer: Seq<u8>,
    info: FrameBufferInfo,
    glyph: GlyphView,
    left: int,
    top: int,
    rows: int,
) -> Seq<u8>
    decreases rows,
{
    if rows <= 0 {
        buffer
    } else {
        draw_glyph_row(
            draw_glyph_rows(buffer, info, glyph, left, top, rows - 1),
            info,
            glyph,
            left,
            top,
            rows - 1,
            glyph.width as int,
        )
    }
}

/// The buffer after `character` was drawn with its upper left corner at
/// column `left` of row `top`. A character without a glyph draws nothing.
pub open spec fn draw_char_at(
    buffer: Seq<u8>,
    info: FrameBufferInfo,
    font: FontView,
    character: char,
    left: int,
    top: int,
) -> Seq<u8> {
    match font.glyph(character as int) {
        Some(glyph) => draw_glyph_rows(buffer, info, glyph, left, top, glyph.height as int),
        None => buffer,
    }
}

/// Bytes that the rows of the screen take up.
pub open spec fn screen_bytes(info: FrameBufferInfo) -> int {
    info.stride * info.height * 4
}

/// The buffer after the screen moved up by `font_height` rows of pixels:
/// the rows below come up, and the lowest `font_height` rows are zero.
pub open spec fn scrolled(buffer: Seq<u8>, info: FrameBufferInfo, font_height: int) -> Seq<u8> {
    let total = screen_bytes(info);
    let kept = info.stride * (info.height - font_height) * 4;
    Seq::new(
        buffer.len(),
        |i: int|
            if i < kept {
                buffer[i + (total - kept)]
            } else if i < total {
                0u8
            } else {
                buffer[i]
            },
    )
}

/// Draws one pixel. A pixel that is not on the screen is not drawn.
pub fn draw_pixel(buffer: &mut [u8], info: FrameBufferInfo, x: usize, y: usize, color: Color)
    requires
        x < info.width && y < info.height ==> pixel_index(info, x as int, y as int) + 2 < old(
            buffer,
        )@.len(),
    ensures
        final(buffer)@ == put_pixel(old(buffer)@, info, x as int, y as int, color),
{
    if x >= info.width || y >= info.height {
        return ;
    }
    let len = buffer.len();
    assert(y * info.stride <= y * info.stride * 4 <= pixel_index(info, x as int, y as int))
        by (nonlinear_arith)
        requires
            pixel_index(info, x as int, y as int) == y * info.stride * 4 + x * 4,
            y >= 0,
            x >= 0,
            info.stride >= 0,
    ;
    let index = y * info.stride * BYTES_PER_PIXEL + x * BYTES_PER_PIXEL;
    buffer[index + 0] = color.b;
    buffer[index + 1] = color.g;
    buffer[index + 2] = color.r;
}

/// A console as a value: the geometry of the screen, the font, and the
/// place of the next character.
pub struct WriterView {
    pub frame_buffer: FrameBuffer,
    pub font: FontView,
    pub x: usize,
    pub y: usize,
}

/// What is on the screen, and where the next character goes.
pub struct Screen {
    pub buffer: Seq<u8>,
    pub x: int,
    pub y: int,
}

/// Rows of pixels that whole lines of text of the height `font_height`
/// take up on a screen of `height` rows.
pub open spec fn max_height_of(height: int, font_height: int) -> int {
    (height / font_height) * font_height
}

/// The lowest row of pixels, and one more, that whole lines of text reach.
pub open spec fn max_height(info: FrameBufferInfo, font_height: int) -> int {
    max_height_of(info.height as int, font_height)
}

/// The screen after a line break: the next line starts at the left, and
/// once the screen is full the text moves up by a line.
pub open spec fn after_new_line(screen: Screen, info: FrameBufferInfo, font_height: int) -> Screen {
    if screen.y + font_height >= max_height(info, font_height) {
        Screen {
            buffer: scrolled(screen.buffer, info, font_height),
            x: 0,
            y: max_height(info, font_height) - font_height,
        }
    } else {
        Screen { buffer: screen.buffer, x: 0, y: screen.y + font_height }
    }
}

/// The screen after `character` was written: a line feed breaks the line,
/// any other character is drawn and the place moves on by its width, with a
/// line break at the right edge.
pub open spec fn after_char(screen: Screen, info: FrameBufferInfo, font: FontView, character: char) -> Screen {
    if character == '\n' {
        after_new_line(screen, info, font.info.height as int)
    } else {
        let drawn = Screen {
            buffer: draw_char_at(screen.buffer, info, font, character, screen.x, screen.y),
            x: screen.x + font.info.width,
            y: screen.y,
        };
        if drawn.x >= info.width {
            after_new_line(drawn, info, font.info.height as int)
        } else {
            drawn
        }
    }
}

/// The screen after the characters of `text` were written in turn.
pub open spec fn after_str(screen: Screen, info: FrameBufferInfo, font: FontView, text: Seq<char>) -> Screen
    decreases text.len(),
{
    if text.len() == 0 {
        screen
    } else {
        after_char(after_str(screen, info, font, text.drop_last()), info, font, text.last())
    }
}

impl WriterView {
    pub open spec fn info(self) -> FrameBufferInfo {
        self.frame_buffer.info
    }

    /// The screen that the console shows with the pixel memory `buffer`.
    pub open spec fn screen(self, buffer: Seq<u8>) -> Screen {
        Screen { buffer, x: self.x as int, y: self.y as int }
    }

    /// Font and screen go together, and the pixel memory of `len` bytes
    /// holds the screen: writing then never leaves the buffer.
    pub open spec fn suits(self, len: int) -> bool {
        &&& self.font.complete()
        &&& 0 < self.font.info.height <= self.info().height
        &&& screen_bytes(self.info()) <= len
        &&& fits(self.info(), len)
        &&& self.info().width + self.font.info.width <= usize::MAX
        &&& self.info().height + self.font.info.height <= usize::MAX
    }

    /// The next character goes to one of the lines of the screen.
    pub open spec fn lined(self) -> bool {
        &&& self.y % (self.font.info.height as usize) == 0
        &&& self.y + self.font.info.height <= max_height(self.info(), self.font.info.height as int)
    }

    /// The next character goes to a place on a line of the screen.
    pub open spec fn placed(self) -> bool {
        self.x <= self.info().width && self.lined()
    }
}

pub struct FrameBufferWriter<'a> {
    frame_buffer: FrameBuffer,
    font: Font<'a>,
    x: usize,
    y: usize,
}

impl<'a> View for FrameBufferWriter<'a> {
    type V = WriterView;

    closed spec fn view(&self) -> WriterView {
        WriterView { frame_buffer: self.frame_buffer, font: self.font@, x: self.x, y: self.y }
    }
}

impl<'a> FrameBufferWriter<'a> {
    /// A console for the screen that `frame_buffer` describes, with the font
    /// that `font` holds, which must be a font.
    pub fn new(frame_buffer: FrameBuffer, font: &'a [u8]) -> (writer: FrameBufferWriter<'a>)
        requires
            font@.len() >= crate::psf::HEADER_SIZE,
            crate::psf::parsed(font@) is Ok,
        ensures
            writer@ == (WriterView {
                frame_buffer,
                font: FontView { info: crate::psf::parsed(font@)->Ok_0, data: font@ },
                x: 0,
                y: 0,
            }),
    {
        match Font::new(font) {
            Ok(font) => FrameBufferWriter { frame_buffer, font, x: 0, y: 0 },
            Err(_) => vstd::pervasive::unreached(),
        }
    }

    /// Column and row of the pixel at which the next character starts.
    pub fn position(&self) -> (place: (usize, usize))
        ensures
            place == (self@.x, self@.y),
    {
        (self.x, self.y)
    }

    /// The font's answer to whether it holds all its glyphs, and the
    /// screen's to whether `buffer_len` bytes hold it.
    pub fn suits(&self, buffer_len: usize) -> (suits: bool)
        ensures
            suits == self@.suits(buffer_len as int),
    {
        let info = self.frame_buffer.info();
        let font_height = self.font.height() as usize;
        if !self.font.is_complete() || font_height == 0 || font_height > info.height {
            return false;
        }
        if info.width > usize::MAX - self.font.width() as usize || info.height > usize::MAX
            - font_height {
            return false;
        }
        let rows = match info.stride.checked_mul(info.height) {
            Some(rows) => rows,
            None => {
                assert(!self@.suits(buffer_len as int)) by {
                    assert(info.stride * info.height <= info.stride * info.height * 4)
                        by (nonlinear_arith)
                        requires
                            info.stride >= 0,
                            info.height >= 0,
                    ;
                }
                return false;
            },
        };
        if rows > buffer_len / BYTES_PER_PIXEL {
            return false;
        }
        if info.width == 0 {
            assert(fits(info, buffer_len as int));
            return true;
        }
        // The last pixel of the last row is the one that lies highest.
        assert((info.height - 1) * info.stride <= rows) by (nonlinear_arith)
            requires
                rows == info.stride * info.height,
                info.height >= 1,
                info.stride >= 0,
        ;
        let last = (info.height - 1) * info.stride;
        if buffer_len < 3 {
            assert(!fits(info, buffer_len as int)) by {
                assert(pixel_index(info, 0, 0) == 0);
            }
            return false;
        }
        if info.width - 1 > (buffer_len - 3) / BYTES_PER_PIXEL || last > (buffer_len - 3)
            / BYTES_PER_PIXEL - (info.width - 1) {
            assert(!fits(info, buffer_len as int)) by {
                assert(pixel_index(info, info.width - 1, info.height - 1) == ((info.height - 1)
                    * info.stride) * 4 + (info.width - 1) * 4) by (nonlinear_arith)
                    requires
                        pixel_index(info, info.width - 1, info.height - 1) == (info.height - 1)
                            * info.stride * 4 + (info.width - 1) * 4,
                ;
            }
            return false;
        }
        assert(fits(info, buffer_len as int)) by {
            assert forall|x: int, y: int| 0 <= x < info.width && 0 <= y < info.height implies
                #[trigger] pixel_index(info, x, y) + 2 < buffer_len by {
                assert(y * info.stride * 4 <= last * 4) by (nonlinear_arith)
                    requires
                        0 <= y <= info.height - 1,
                        last == (info.height - 1) * info.stride,
                        info.stride >= 0,
                ;
            }
        }
        true
    }

    /// Paints the screen black and goes to its upper left corner.
    pub fn clear(&mut self, buffer: &mut [u8])
        requires
            fits(old(self)@.info(), old(buffer)@.len() as int),
        ensures
            final(self)@ == (WriterView { x: 0, y: 0, ..old(self)@ }),
            final(buffer)@ == fill_rows(
                old(buffer)@,
                old(self)@.info(),
                old(self)@.info().height as int,
                black(),
            ),
    {
        let info = self.frame_buffer.info();
        let ghost start = buffer@;
        let mut y: usize = 0;
        while y < info.height
            invariant
                y <= info.height,
                buffer@.len() == start.len(),
                fits(info, start.len() as int),
                buffer@ == fill_rows(start, info, y as int, black()),
            decreases info.height - y,
        {
            let ghost row_start = buffer@;
            let mut x: usize = 0;
            while x < info.width
                invariant
                    x <= info.width,
                    y < info.height,
                    buffer@.len() == start.len(),
                    fits(info, start.len() as int),
                    buffer@ == fill_row(row_start, info, y as int, x as int, black()),
                decreases info.width - x,
            {
                assert(pixel_index(info, x as int, y as int) + 2 < buffer@.len());
                draw_pixel(buffer, info, x, y, Color::black());
                x += 1;
            }
            y += 1;
        }
        // Reset x and y positions
        self.x = 0;
        self.y = 0;
    }

    /// Draws `character` at the place of the next character, which stays
    /// where it is. A character without a glyph draws nothing.
    pub fn draw_char(&mut self, buffer: &mut [u8], character: char)
        requires
            old(self)@.can_draw(character, old(buffer)@.len() as int),
        ensures
            final(self)@ == old(self)@,
            final(buffer)@ == draw_char_at(
                old(buffer)@,
                old(self)@.info(),
                old(self)@.font,
                character,
                old(self)@.x as int,
                old(self)@.y as int,
            ),
    {
        let info = self.frame_buffer.info();
        let ghost start = buffer@;
        if let Some(glyph) = self.font.glyph(character) {
            let ghost shape = glyph@;
            let height = glyph.height();
            let width = glyph.width();
            let mut y: u32 = 0;
            while y < height
                invariant
                    y <= height,
                    height == shape.height,
                    width == shape.width,
                    glyph@ == shape,
                    shape.readable(),
                    info == self@.info(),
                    self.x + shape.width <= usize::MAX,
                    self.y + shape.height <= usize::MAX,
                    buffer@.len() == start.len(),
                    fits(info, start.len() as int),
                    buffer@ == draw_glyph_rows(start, info, shape, self.x as int, self.y as int, y as int),
                decreases height - y,
            {
                let ghost row_start = buffer@;
                let mut x: u32 = 0;
                while x < width
                    invariant
                        x <= width,
                        y < height,
                        height == shape.height,
                        width == shape.width,
                        glyph@ == shape,
                        shape.readable(),
                        info == self@.info(),
                        self.x + shape.width <= usize::MAX,
                        self.y + shape.height <= usize::MAX,
                        buffer@.len() == start.len(),
                        fits(info, start.len() as int),
                        buffer@ == draw_glyph_row(
                            row_start,
                            info,
                            shape,
                            self.x as int,
                            self.y as int,
                            y as int,
                            x as int,
                        ),
                    decreases width - x,
                {
                    assert(shape.byte_index(x, y) < shape.data.len());
                    let pixel = match glyph.pixel(x, y) {
                        Some(pixel) => pixel,
                        None => false,
                    };
                    let pixel = if pixel {
                        Color::white()
                    } else {
                        Color::black()
                    };
                    assert(pixel == glyph_color(shape, x as int, y as int));
                    let at_x = self.x + x as usize;
                    let at_y = self.y + y as usize;
                    assert(at_x < info.width && at_y < info.height ==> pixel_index(
                        info,
                        at_x as int,
                        at_y as int,
                    ) + 2 < buffer@.len());
                    draw_pixel(buffer, info, at_x, at_y, pixel);
                    x += 1;
                }
                y += 1;
            }
        }
    }

    /// Moves the screen up by one line of text and blanks the lowest line.
    pub fn scroll_line(&mut self, buffer: &mut [u8])
        requires
            old(self)@.font.info.height <= old(self)@.info().height,
            screen_bytes(old(self)@.info()) <= old(buffer)@.len(),
        ensures
            final(self)@ == old(self)@,
            final(buffer)@ == scrolled(
                old(buffer)@,
                old(self)@.info(),
                old(self)@.font.info.height as int,
            ),
    {
        let info = self.frame_buffer.info();
        let font_height = self.font.height() as usize;
        let len = buffer.len();
        let ghost start = buffer@;
        proof {
            lemma_screen_parts(info, font_height as int);
        }
        let total = info.stride * info.height * BYTES_PER_PIXEL;
        let count = info.stride * (info.height - font_height) * BYTES_PER_PIXEL;
        let offset = total - count;

        // Scroll screen
        let mut i: usize = 0;
        while i < count
            invariant
                i <= count,
                count + offset == total,
                total <= len,
                len == start.len(),
                buffer@.len() == len,
                forall|k: int| 0 <= k < i ==> buffer@[k] == start[k + offset],
                forall|k: int| i <= k < len ==> buffer@[k] == start[k],
            decreases count - i,
        {
            buffer[i] = buffer[i + offset];
            i += 1;
        }
        // Clear now scrolled section
        let mut j: usize = count;
        while j < total
            invariant
                count <= j <= total,
                count + offset == total,
                total <= len,
                len == start.len(),
                buffer@.len() == len,
                forall|k: int| 0 <= k < count ==> buffer@[k] == start[k + offset],
                forall|k: int| count <= k < j ==> buffer@[k] == 0,
                forall|k: int| total <= k < len ==> buffer@[k] == start[k],
            decreases total - j,
        {
            buffer[j] = 0;
            j += 1;
        }
        assert(buffer@ =~= scrolled(start, info, font_height as int));
    }

    /// Breaks the line: the next character goes to the start of the line
    /// below, or, on a full screen, to the start of the lowest line after
    /// the text has moved up.
    pub fn new_line(&mut self, buffer: &mut [u8])
        requires
            0 < old(self)@.font.info.height <= old(self)@.info().height,
            screen_bytes(old(self)@.info()) <= old(buffer)@.len(),
            old(self)@.y + old(self)@.font.info.height <= usize::MAX,
        ensures
            final(self)@.frame_buffer == old(self)@.frame_buffer,
            final(self)@.font == old(self)@.font,
            final(buffer)@.len() == old(buffer)@.len(),
            final(self)@.screen(final(buffer)@) == after_new_line(
                old(self)@.screen(old(buffer)@),
                old(self)@.info(),
                old(self)@.font.info.height as int,
            ),
            old(self)@.lined() ==> final(self)@.placed(),
    {
        let info = self.frame_buffer.info();
        let font_height = self.font.height() as usize;
        proof {
            lemma_lines(info.height as int, font_height as int, self.y as int);
        }
        let max_height = (info.height / font_height) * font_height;

        self.y += font_height;
        self.x = 0;

        if self.y >= max_height {
            self.scroll_line(buffer);
            self.y = max_height - font_height;
        }
    }

    /// Writes `character` at the place of the next character and moves on.
    pub fn write_char(&mut self, buffer: &mut [u8], character: char)
        requires
            old(self)@.suits(old(buffer)@.len() as int),
            old(self)@.placed(),
        ensures
            final(self)@.frame_buffer == old(self)@.frame_buffer,
            final(self)@.font == old(self)@.font,
            final(buffer)@.len() == old(buffer)@.len(),
            final(self)@.screen(final(buffer)@) == after_char(
                old(self)@.screen(old(buffer)@),
                old(self)@.info(),
                old(self)@.font,
                character,
            ),
            final(self)@.placed(),
    {
        let info = self.frame_buffer.info();
        proof {
            lemma_lines(info.height as int, self@.font.info.height as int, self.y as int);
        }

        match character {
            '\n' => {
                self.new_line(buffer);
            },
            character => {
                proof {
                    lemma_can_draw(self@, character, buffer@.len() as int);
                    lemma_draw_keeps_len(
                        buffer@,
                        info,
                        self@.font,
                        character,
                        self.x as int,
                        self.y as int,
                    );
                }
                self.draw_char(buffer, character);
                self.x += self.font.width() as usize;

                if self.x >= info.width {
                    self.new_line(buffer);
                }
            },
        }
    }

    /// Writes the characters of `text` in turn.
    pub fn write_str(&mut self, buffer: &mut [u8], text: &str)
        requires
            old(self)@.suits(old(buffer)@.len() as int),
            old(self)@.placed(),
        ensures
            final(self)@.frame_buffer == old(self)@.frame_buffer,
            final(self)@.font == old(self)@.font,
            final(buffer)@.len() == old(buffer)@.len(),
            final(self)@.screen(final(buffer)@) == after_str(
                old(self)@.screen(old(buffer)@),
                old(self)@.info(),
                old(self)@.font,
                text@,
            ),
            final(self)@.placed(),
    {
        let ghost first = self@;
        let ghost start = buffer@;
        let count = text.unicode_len();
        let mut i: usize = 0;
        assert(text@.take(0).len() == 0);
        while i < count
            invariant
                i <= count,
                count == text@.len(),
                self@.frame_buffer == first.frame_buffer,
                self@.font == first.font,
                buffer@.len() == start.len(),
                self@.suits(buffer@.len() as int),
                self@.placed(),
                self@.screen(buffer@) == after_str(
                    first.screen(start),
                    first.info(),
                    first.font,
                    text@.take(i as int),
                ),
            decreases count - i,
        {
            proof {
                assert(text@.take(i + 1).drop_last() == text@.take(i as int));
                assert(text@.take(i + 1).last() == text@[i as int]);
            }
            self.write_char(buffer, text.get_char(i));
            i += 1;
        }
        assert(text@.take(i as int) == text@);
    }
}

impl WriterView {
    /// `draw_char` can draw `character` into a buffer of `len` bytes: the
    /// font holds the glyph, and what is drawn of it lies in the buffer.
    pub open spec fn can_draw(self, character: char, len: int) -> bool {
        &&& fits(self.info(), len)
        &&& character as int <= self.font.info.num_glyphs ==> {
            &&& self.font.holds(character as int)
            &&& self.font.glyph(character as int)->Some_0.readable()
            &&& self.x + self.font.info.width <= usize::MAX
            &&& self.y + self.font.info.height <= usize::MAX
        }
    }
}

/// A console that suits its buffer and stands in the upper left corner, as
/// a new one does and one that was cleared, is placed.
pub proof fn lemma_corner_is_placed(writer: WriterView, len: int)
    requires
        writer.suits(len),
        writer.x == 0,
        writer.y == 0,
    ensures
        writer.placed(),
{
    lemma_lines(writer.info().height as int, writer.font.info.height as int, 0);
}

/// A console that suits its buffer can draw every character.
pub proof fn lemma_can_draw(writer: WriterView, character: char, len: int)
    requires
        writer.suits(len),
        writer.placed(),
    ensures
        writer.can_draw(character, len),
{
    if character as int <= writer.font.info.num_glyphs {
        let glyph = writer.font.glyph(character as int)->Some_0;
        assert forall|x: u32, y: u32| x < glyph.width && y < glyph.height implies
            #[trigger] glyph.byte_index(x, y) < glyph.data.len() by {
            crate::psf::lemma_complete_font(writer.font, character as int, x, y);
        }
        crate::psf::lemma_complete_font(writer.font, character as int, 0, 0);
        lemma_lines(
            writer.info().height as int,
            writer.font.info.height as int,
            writer.y as int,
        );
    }
}

/// Drawing never changes the length of the buffer.
pub proof fn lemma_draw_keeps_len(
    buffer: Seq<u8>,
    info: FrameBufferInfo,
    font: FontView,
    character: char,
    left: int,
    top: int,
)
    requires
        fits(info, buffer.len() as int),
        left >= 0,
        top >= 0,
    ensures
        draw_char_at(buffer, info, font, character, left, top).len() == buffer.len(),
{
    match font.glyph(character as int) {
        Some(glyph) => {
            lemma_glyph_rows_keep_len(buffer, info, glyph, left, top, glyph.height as int);
        },
        None => {},
    }
}

proof fn lemma_glyph_rows_keep_len(
    buffer: Seq<u8>,
    info: FrameBufferInfo,
    glyph: GlyphView,
    left: int,
    top: int,
    rows: int,
)
    requires
        fits(info, buffer.len() as int),
        left >= 0,
        top >= 0,
    ensures
        draw_glyph_rows(buffer, info, glyph, left, top, rows).len() == buffer.len(),
    decreases rows,
{
    if rows > 0 {
        lemma_glyph_rows_keep_len(buffer, info, glyph, left, top, rows - 1);
        lemma_glyph_row_keeps_len(
            draw_glyph_rows(buffer, info, glyph, left, top, rows - 1),
            info,
            glyph,
            left,
            top,
            rows - 1,
            glyph.width as int,
        );
    }
}

proof fn lemma_glyph_row_keeps_len(
    buffer: Seq<u8>,
    info: FrameBufferInfo,
    glyph: GlyphView,
    left: int,
    top: int,
    row: int,
    columns: int,
)
    requires
        fits(info, buffer.len() as int),
        left >= 0,
        top >= 0,
        row >= 0,
    ensures
        draw_glyph_row(buffer, info, glyph, left, top, row, columns).len() == buffer.len(),
    decreases columns,
{
    if columns > 0 {
        lemma_glyph_row_keeps_len(buffer, info, glyph, left, top, row, columns - 1);
        if left + columns - 1 < info.width && top + row < info.height {
            assert(pixel_index(info, left + columns - 1, top + row) + 2 < buffer.len());
        }
    }
}

/// The byte number `index` holds part of the colour of one of the first
/// `columns` pixels of row `y`.
pub open spec fn in_row(info: FrameBufferInfo, y: int, columns: int, index: int) -> bool {
    exists|x: int|
        0 <= x < columns && x < info.width && 0 <= index - #[trigger] pixel_index(info, x, y) <= 2
}

/// The byte number `index` holds part of the colour of a pixel in one of
/// the first `rows` rows of the screen.
pub open spec fn in_rows(info: FrameBufferInfo, rows: int, index: int) -> bool {
    exists|y: int|
        0 <= y < rows && y < info.height && #[trigger] in_row(info, y, info.width as int, index)
}

/// A row that is painted black holds zero in the colour of each pixel that
/// was painted, and is as before everywhere else.
pub proof fn lemma_black_row(buffer: Seq<u8>, info: FrameBufferInfo, y: int, columns: int)
    requires
        fits(info, buffer.len() as int),
        0 <= y < info.height,
    ensures
        fill_row(buffer, info, y, columns, black()).len() == buffer.len(),
        forall|index: int|
            0 <= index < buffer.len() ==> #[trigger] fill_row(
                buffer,
                info,
                y,
                columns,
                black(),
            )[index] == if in_row(info, y, columns, index) {
                0u8
            } else {
                buffer[index]
            },
    decreases columns,
{
    if columns > 0 {
        lemma_black_row(buffer, info, y, columns - 1);
        let before = fill_row(buffer, info, y, columns - 1, black());
        let after = fill_row(buffer, info, y, columns, black());
        let x = columns - 1;
        assert forall|index: int| 0 <= index < buffer.len() implies #[trigger] after[index]
            == if in_row(info, y, columns, index) {
            0u8
        } else {
            buffer[index]
        } by {
            if x < info.width {
                let at = pixel_index(info, x, y);
                assert(at + 2 < buffer.len());
                if at <= index <= at + 2 {
                    assert(in_row(info, y, columns, index));
                } else {
                    assert(after[index] == before[index]);
                    if in_row(info, y, columns - 1, index) {
                        let w = choose|w: int|
                            0 <= w < columns - 1 && w < info.width && 0 <= index - #[trigger] pixel_index(
                                info,
                                w,
                                y,
                            ) <= 2;
                        assert(0 <= w < columns);
                    }
                    if in_row(info, y, columns, index) {
                        let w = choose|w: int|
                            0 <= w < columns && w < info.width && 0 <= index - #[trigger] pixel_index(
                                info,
                                w,
                                y,
                            ) <= 2;
                        assert(w != x);
                        assert(0 <= w < columns - 1);
                    }
                }
            } else {
                assert(after == before);
                if in_row(info, y, columns, index) {
                    let w = choose|w: int|
                        0 <= w < columns && w < info.width && 0 <= index - #[trigger] pixel_index(
                            info,
                            w,
                            y,
                        ) <= 2;
                    assert(0 <= w < columns - 1);
                }
                if in_row(info, y, columns - 1, index) {
                    let w = choose|w: int|
                        0 <= w < columns - 1 && w < info.width && 0 <= index - #[trigger] pixel_index(
                            info,
                            w,
                            y,
                        ) <= 2;
                    assert(0 <= w < columns);
                }
            }
        }
    }
}

/// A screen that is painted black holds zero in the colour of every pixel
/// on it, and is as before everywhere else: in the fourth byte of each
/// pixel, and in what lies between the rows and behind them.
pub proof fn lemma_black_screen(buffer: Seq<u8>, info: FrameBufferInfo, rows: int)
    requires
        fits(info, buffer.len() as int),
        rows <= info.height,
    ensures
        fill_rows(buffer, info, rows, black()).len() == buffer.len(),
        forall|index: int|
            0 <= index < buffer.len() ==> #[trigger] fill_rows(buffer, info, rows, black())[index]
                == if in_rows(info, rows, index) {
                0u8
            } else {
                buffer[index]
            },
    decreases rows,
{
    if rows > 0 {
        lemma_black_screen(buffer, info, rows - 1);
        let before = fill_rows(buffer, info, rows - 1, black());
        let after = fill_rows(buffer, info, rows, black());
        lemma_black_row(before, info, rows - 1, info.width as int);
        assert forall|index: int| 0 <= index < buffer.len() implies #[trigger] after[index]
            == if in_rows(info, rows, index) {
            0u8
        } else {
            buffer[index]
        } by {
            if in_row(info, rows - 1, info.width as int, index) {
                assert(in_rows(info, rows, index));
            } else {
                assert(after[index] == before[index]);
                if in_rows(info, rows - 1, index) {
                    let y = choose|y: int|
                        0 <= y < rows - 1 && y < info.height && #[trigger] in_row(
                            info,
                            y,
                            info.width as int,
                            index,
                        );
                    assert(0 <= y < rows);
                }
                if in_rows(info, rows, index) {
                    let y = choose|y: int|
                        0 <= y < rows && y < info.height && #[trigger] in_row(
                            info,
                            y,
                            info.width as int,
                            index,
                        );
                    assert(y != rows - 1);
                    assert(0 <= y < rows - 1);
                }
            }
        }
    }
}

/// The byte number `index` holds part of the colour of the pixel at column
/// `x` of row `y`.
pub open spec fn hits(info: FrameBufferInfo, x: int, y: int, index: int) -> bool {
    0 <= index - pixel_index(info, x, y) <= 2
}

/// The index of the byte number `part` of the pixel at column `x` of row
/// `y`.
pub open spec fn byte_at(info: FrameBufferInfo, x: int, y: int, part: int) -> int {
    pixel_index(info, x, y) + part
}

/// The part of `color` that the byte number `part` of a pixel holds.
pub open spec fn part_of(color: Color, part: int) -> u8 {
    if part == 0 {
        color.b
    } else if part == 1 {
        color.g
    } else {
        color.r
    }
}

/// Where rows are at least as long as the screen is wide, the bytes of two
/// pixels in different rows lie apart.
proof fn lemma_rows_apart(info: FrameBufferInfo, x1: int, y1: int, x2: int, y2: int)
    requires
        info.width <= info.stride,
        0 <= x1 < info.width,
        0 <= x2 < info.width,
        0 <= y1 < y2,
    ensures
        pixel_index(info, x1, y1) + 4 <= pixel_index(info, x2, y2),
{
    assert(y1 * info.stride * 4 + info.stride * 4 <= y2 * info.stride * 4) by (nonlinear_arith)
        requires
            0 <= y1 < y2,
            info.stride >= 0,
    ;
}

/// A row of a glyph that is drawn leaves each of its pixels on the screen
/// in its colour, and everything else as before.
pub proof fn lemma_glyph_row(
    buffer: Seq<u8>,
    info: FrameBufferInfo,
    glyph: GlyphView,
    left: int,
    top: int,
    row: int,
    columns: int,
)
    requires
        fits(info, buffer.len() as int),
        left >= 0,
        top >= 0,
        row >= 0,
    ensures
        draw_glyph_row(buffer, info, glyph, left, top, row, columns).len() == buffer.len(),
        forall|x: int, part: int|
            left <= x < left + columns && x < info.width && top + row < info.height && 0 <= part
                <= 2 ==> draw_glyph_row(buffer, info, glyph, left, top, row, columns)[#[trigger] byte_at(
                info,
                x,
                top + row,
                part,
            )] == part_of(glyph_color(glyph, x - left, row), part),
        forall|index: int|
            0 <= index < buffer.len() && (forall|x: int|
                left <= x < left + columns && x < info.width && top + row < info.height
                    ==> !#[trigger] hits(info, x, top + row, index)) ==> #[trigger] draw_glyph_row(
                buffer,
                info,
                glyph,
                left,
                top,
                row,
                columns,
            )[index] == buffer[index],
    decreases columns,
{
    if columns > 0 {
        lemma_glyph_row(buffer, info, glyph, left, top, row, columns - 1);
        let before = draw_glyph_row(buffer, info, glyph, left, top, row, columns - 1);
        let after = draw_glyph_row(buffer, info, glyph, left, top, row, columns);
        let last = left + columns - 1;
        let y = top + row;
        if last < info.width && y < info.height {
            let at = pixel_index(info, last, y);
            assert(at + 2 < buffer.len());
            assert forall|x: int, part: int|
                left <= x < left + columns && x < info.width && top + row < info.height && 0
                    <= part <= 2 implies after[#[trigger] byte_at(info, x, top + row, part)]
                == part_of(glyph_color(glyph, x - left, row), part) by {
                if x < last {
                    assert(pixel_index(info, x, y) + 4 <= at);
                    assert(after[byte_at(info, x, y, part)] == before[byte_at(info, x, y, part)]);
                }
            }
            assert forall|index: int|
                0 <= index < buffer.len() && (forall|x: int|
                    left <= x < left + columns && x < info.width && top + row < info.height
                        ==> !#[trigger] hits(info, x, top + row, index)) implies #[trigger] after[index]
                == buffer[index] by {
                assert(!hits(info, last, y, index));
                assert(after[index] == before[index]);
            }
        } else {
            assert(after == before);
        }
    }
}

/// A glyph that is drawn on a screen whose rows are at least as long as it
/// is wide leaves each of its pixels on the screen in its colour, white
/// where the glyph is set and black where it is not, and everything else
/// as before.
pub proof fn lemma_glyph_rows(
    buffer: Seq<u8>,
    info: FrameBufferInfo,
    glyph: GlyphView,
    left: int,
    top: int,
    rows: int,
)
    requires
        fits(info, buffer.len() as int),
        info.width <= info.stride,
        left >= 0,
        top >= 0,
    ensures
        draw_glyph_rows(buffer, info, glyph, left, top, rows).len() == buffer.len(),
        forall|x: int, y: int, part: int|
            left <= x < left + glyph.width && x < info.width && top <= y < top + rows && y
                < info.height && 0 <= part <= 2 ==> draw_glyph_rows(
                buffer,
                info,
                glyph,
                left,
                top,
                rows,
            )[#[trigger] byte_at(info, x, y, part)] == part_of(
                glyph_color(glyph, x - left, y - top),
                part,
            ),
        forall|index: int|
            0 <= index < buffer.len() && (forall|x: int, y: int|
                left <= x < left + glyph.width && x < info.width && top <= y < top + rows && y
                    < info.height ==> !#[trigger] hits(info, x, y, index))
                ==> #[trigger] draw_glyph_rows(buffer, info, glyph, left, top, rows)[index]
                == buffer[index],
    decreases rows,
{
    if rows > 0 {
        lemma_glyph_rows(buffer, info, glyph, left, top, rows - 1);
        let before = draw_glyph_rows(buffer, info, glyph, left, top, rows - 1);
        let after = draw_glyph_rows(buffer, info, glyph, left, top, rows);
        let row = rows - 1;
        lemma_glyph_row(before, info, glyph, left, top, row, glyph.width as int);
        assert forall|x: int, y: int, part: int|
            left <= x < left + glyph.width && x < info.width && top <= y < top + rows && y
                < info.height && 0 <= part <= 2 implies after[#[trigger] byte_at(info, x, y, part)]
            == part_of(glyph_color(glyph, x - left, y - top), part) by {
            if y < top + row {
                let index = byte_at(info, x, y, part);
                assert(index < buffer.len());
                assert forall|w: int|
                    left <= w < left + glyph.width && w < info.width && top + row
                        < info.height implies !#[trigger] hits(info, w, top + row, index) by {
                    lemma_rows_apart(info, x, y, w, top + row);
                }
                assert(after[index] == before[index]);
            }
        }
        assert forall|index: int|
            0 <= index < buffer.len() && (forall|x: int, y: int|
                left <= x < left + glyph.width && x < info.width && top <= y < top + rows && y
                    < info.height ==> !#[trigger] hits(info, x, y, index)) implies #[trigger] after[index]
            == buffer[index] by {
            assert forall|w: int|
                left <= w < left + glyph.width && w < info.width && top + row
                    < info.height implies !#[trigger] hits(info, w, top + row, index) by {
                assert(!hits(info, w, top + row, index));
            }
            assert(after[index] == before[index]);
            assert forall|x: int, y: int|
                left <= x < left + glyph.width && x < info.width && top <= y < top + (rows - 1)
                    && y < info.height implies !#[trigger] hits(info, x, y, index) by {
                assert(!hits(info, x, y, index));
            }
        }
    }
}

/// The rows that stay on the screen when it scrolls, and those that go,
/// make up the screen.
proof fn lemma_screen_parts(info: FrameBufferInfo, font_height: int)
    requires
        0 <= font_height <= info.height,
    ensures
        0 <= info.stride * info.height <= screen_bytes(info),
        0 <= info.stride * (info.height - font_height) <= info.stride * (info.height - font_height)
            * 4 <= screen_bytes(info),
{
    assert(0 <= info.stride * (info.height - font_height) <= info.stride * info.height)
        by (nonlinear_arith)
        requires
            0 <= font_height <= info.height,
            0 <= info.stride,
    ;
}

/// Lines of text start at multiples of the font's height: below a line
/// that is not the last there is room for another.
proof fn lemma_lines(height: int, font_height: int, y: int)
    requires
        0 < font_height <= height,
        0 <= y,
    ensures
        font_height <= max_height_of(height, font_height) <= height,
        max_height_of(height, font_height) % font_height == 0,
        (max_height_of(height, font_height) - font_height) % font_height == 0,
        y % font_height == 0 ==> (y + font_height) % font_height == 0,
        y % font_height == 0 && y + font_height < max_height_of(height, font_height) ==> y + 2
            * font_height <= max_height_of(height, font_height),
{
    let lines = height / font_height;
    vstd::arithmetic::div_mod::lemma_fundamental_div_mod(height, font_height);
    vstd::arithmetic::div_mod::lemma_mod_pos_bound(height, font_height);
    vstd::arithmetic::mul::lemma_mul_is_commutative(lines, font_height);
    vstd::arithmetic::div_mod::lemma_mod_multiples_basic(lines, font_height);
    assert(lines >= 1) by (nonlinear_arith)
        requires
            height == font_height * lines + height % font_height,
            0 <= height % font_height < font_height,
            font_height <= height,
    ;
    assert(lines * font_height >= font_height) by (nonlinear_arith)
        requires
            lines >= 1,
            font_height > 0,
    ;
    vstd::arithmetic::div_mod::lemma_mod_multiples_basic(lines - 1, font_height);
    assert((lines - 1) * font_height == lines * font_height - font_height) by (nonlinear_arith);
    if y % font_height == 0 {
        let rows = y / font_height;
        vstd::arithmetic::div_mod::lemma_fundamental_div_mod(y, font_height);
        vstd::arithmetic::mul::lemma_mul_is_commutative(rows, font_height);
        vstd::arithmetic::div_mod::lemma_mod_multiples_basic(rows + 1, font_height);
        assert((rows + 1) * font_height == y + font_height) by (nonlinear_arith)
            requires
                y == rows * font_height,
        ;
        if y + font_height < lines * font_height {
            assert(rows + 2 <= lines) by (nonlinear_arith)
                requires
                    (rows + 1) * font_height < lines * font_height,
                    font_height > 0,
            ;
            assert(y + 2 * font_height <= lines * font_height) by (nonlinear_arith)
                requires
                    rows + 2 <= lines,
                    y == rows * font_height,
                    font_height > 0,
            ;
        }
    }
}

/// Sets up the console: a writer for the screen that `frame_buffer`
/// describes, with the font that `font` holds, on a black screen.
pub fn init<'a>(frame_buffer: FrameBuffer, font: &'a [u8], buffer: &mut [u8]) -> (writer:
    FrameBufferWriter<'a>)
    requires
        font@.len() >= crate::psf::HEADER_SIZE,
        crate::psf::parsed(font@) is Ok,
        fits(frame_buffer.info, old(buffer)@.len() as int),
    ensures
        writer@ == (WriterView {
            frame_buffer,
            font: FontView { info: crate::psf::parsed(font@)->Ok_0, data: font@ },
            x: 0,
            y: 0,
        }),
        final(buffer)@ == fill_rows(
            old(buffer)@,
            frame_buffer.info,
            frame_buffer.info.height as int,
            black(),
        ),
{
    let mut writer = FrameBufferWriter::new(frame_buffer, font);
    writer.clear(buffer);
    writer
}

} // verus!
