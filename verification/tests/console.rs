use unx::boot_info::{FrameBuffer, FrameBufferInfo};
use unx::kernel::console::{draw_pixel, init, Color, FrameBufferWriter, BYTES_PER_PIXEL};
use unx::psf::MAGIC;

const INFO: FrameBufferInfo = FrameBufferInfo { width: 16, height: 4, stride: 20 };
const LEN: usize = 20 * 4 * 4;

fn frame_buffer() -> FrameBuffer {
    FrameBuffer { buffer_base: 0xffff_ffc0_8000_0000, buffer_size: LEN, info: INFO }
}

/// A font of four glyphs, eight pixels wide and two high. The glyph of the
/// character 1 has its first and last pixel set in the first row, and its
/// second pixel in the second row.
fn font() -> Vec<u8> {
    let mut data = Vec::new();
    for word in [MAGIC, 0, 32, 0, 3, 2, 2, 8] {
        data.extend_from_slice(&word.to_le_bytes());
    }
    data.extend_from_slice(&[0x00, 0x00, 0b1000_0001, 0b0100_0000, 0xff, 0xff, 0x55, 0xaa]);
    data
}

fn pixel(buffer: &[u8], x: usize, y: usize) -> (u8, u8, u8, u8) {
    let at = (y * INFO.stride + x) * 4;
    (buffer[at], buffer[at + 1], buffer[at + 2], buffer[at + 3])
}

const WHITE: (u8, u8, u8, u8) = (255, 255, 255, 0x77);
const BLACK: (u8, u8, u8, u8) = (0, 0, 0, 0x77);
const UNTOUCHED: (u8, u8, u8, u8) = (0x77, 0x77, 0x77, 0x77);

#[test]
fn colours_are_red_green_and_blue() {
    assert_eq!(Color::new(1, 2, 3), Color { r: 1, g: 2, b: 3 });
    assert_eq!(Color::black(), Color { r: 0, g: 0, b: 0 });
    assert_eq!(Color::white(), Color { r: 255, g: 255, b: 255 });
    assert_eq!(BYTES_PER_PIXEL, 4);
}

#[test]
fn a_pixel_is_stored_as_blue_green_red() {
    let mut buffer = vec![0x77u8; LEN];
    draw_pixel(&mut buffer, INFO, 3, 2, Color::new(0x11, 0x22, 0x33));
    let at = (2 * 20 + 3) * 4;
    assert_eq!(&buffer[at..at + 4], &[0x33, 0x22, 0x11, 0x77]);
    let changed = (0..LEN).filter(|&i| buffer[i] != 0x77).count();
    assert_eq!(changed, 3);
}

#[test]
fn a_pixel_off_the_screen_is_not_drawn() {
    let mut buffer = vec![0x77u8; LEN];
    draw_pixel(&mut buffer, INFO, 16, 0, Color::white());
    draw_pixel(&mut buffer, INFO, 0, 4, Color::white());
    draw_pixel(&mut buffer, INFO, usize::MAX, usize::MAX, Color::white());
    assert!(buffer.iter().all(|&byte| byte == 0x77));
}

#[test]
fn a_new_console_starts_at_the_upper_left_corner() {
    let font = font();
    let writer = FrameBufferWriter::new(frame_buffer(), &font);
    assert_eq!(writer.position(), (0, 0));
    assert!(writer.suits(LEN));
    assert!(!writer.suits(LEN - 1));
}

#[test]
fn a_console_does_not_suit_a_screen_that_is_lower_than_its_font() {
    let font = font();
    let mut low = frame_buffer();
    low.info.height = 1;
    assert!(!FrameBufferWriter::new(low, &font).suits(LEN));
    let mut narrow = frame_buffer();
    narrow.info.stride = 8;
    assert!(!FrameBufferWriter::new(narrow, &font).suits(8 * 4 * 4));
    assert!(FrameBufferWriter::new(narrow, &font).suits(8 * 3 * 4 + 16 * 4));
    let mut short = font.clone();
    short.pop();
    assert!(!FrameBufferWriter::new(frame_buffer(), &short).suits(LEN));
}

#[test]
fn setting_up_the_console_paints_the_screen_black() {
    let font = font();
    let mut buffer = vec![0x77u8; LEN];
    let writer = init(frame_buffer(), &font, &mut buffer);
    assert_eq!(writer.position(), (0, 0));
    for y in 0..4 {
        for x in 0..20 {
            assert_eq!(pixel(&buffer, x, y), if x < 16 { BLACK } else { UNTOUCHED });
        }
    }
}

#[test]
fn clearing_goes_back_to_the_upper_left_corner() {
    let font = font();
    let mut buffer = vec![0x77u8; LEN];
    let mut writer = init(frame_buffer(), &font, &mut buffer);
    writer.write_str(&mut buffer, "\u{2}\n\u{2}");
    assert_eq!(writer.position(), (8, 2));
    assert_eq!(pixel(&buffer, 0, 0), WHITE);
    writer.clear(&mut buffer);
    assert_eq!(writer.position(), (0, 0));
    assert_eq!(pixel(&buffer, 0, 0), BLACK);
    assert_eq!(pixel(&buffer, 7, 3), BLACK);
}

#[test]
fn a_character_is_drawn_white_on_black() {
    let font = font();
    let mut buffer = vec![0x77u8; LEN];
    let mut writer = FrameBufferWriter::new(frame_buffer(), &font);
    writer.draw_char(&mut buffer, '\u{1}');
    assert_eq!(writer.position(), (0, 0));
    for y in 0..4 {
        for x in 0..20 {
            let expected = if x >= 8 || y >= 2 {
                UNTOUCHED
            } else if (x, y) == (0, 0) || (x, y) == (7, 0) || (x, y) == (1, 1) {
                WHITE
            } else {
                BLACK
            };
            assert_eq!(pixel(&buffer, x, y), expected);
        }
    }
}

#[test]
fn a_character_without_a_glyph_draws_nothing() {
    let font = font();
    let mut buffer = vec![0x77u8; LEN];
    let mut writer = FrameBufferWriter::new(frame_buffer(), &font);
    writer.draw_char(&mut buffer, 'x');
    assert!(buffer.iter().all(|&byte| byte == 0x77));
    writer.write_char(&mut buffer, 'x');
    assert!(buffer.iter().all(|&byte| byte == 0x77));
    assert_eq!(writer.position(), (8, 0));
}

#[test]
fn writing_moves_on_by_the_width_of_the_font() {
    let font = font();
    let mut buffer = vec![0x77u8; LEN];
    let mut writer = init(frame_buffer(), &font, &mut buffer);
    writer.write_char(&mut buffer, '\u{1}');
    assert_eq!(writer.position(), (8, 0));
    assert_eq!(pixel(&buffer, 0, 0), WHITE);
    assert_eq!(pixel(&buffer, 8, 0), BLACK);
    writer.write_char(&mut buffer, '\u{2}');
    assert_eq!(writer.position(), (0, 2));
    assert_eq!(pixel(&buffer, 8, 0), WHITE);
    assert_eq!(pixel(&buffer, 15, 1), WHITE);
    assert_eq!(pixel(&buffer, 0, 2), BLACK);
}

#[test]
fn a_line_feed_goes_to_the_start_of_the_next_line() {
    let font = font();
    let mut buffer = vec![0x77u8; LEN];
    let mut writer = init(frame_buffer(), &font, &mut buffer);
    writer.write_char(&mut buffer, '\u{2}');
    let before = buffer.clone();
    writer.write_char(&mut buffer, '\n');
    assert_eq!(writer.position(), (0, 2));
    assert_eq!(buffer, before);
}

#[test]
fn a_full_screen_moves_up_by_a_line() {
    let font = font();
    let mut buffer = vec![0x77u8; LEN];
    let mut writer = init(frame_buffer(), &font, &mut buffer);
    writer.write_str(&mut buffer, "\u{2}\n\u{1}");
    assert_eq!(writer.position(), (8, 2));
    let before = buffer.clone();
    writer.new_line(&mut buffer);
    assert_eq!(writer.position(), (0, 2));
    let row = 20 * 4;
    assert_eq!(&buffer[..2 * row], &before[2 * row..]);
    assert!(buffer[2 * row..].iter().all(|&byte| byte == 0));
    assert_eq!(pixel(&buffer, 0, 0), WHITE);
    assert_eq!(pixel(&buffer, 1, 0), BLACK);
    assert_eq!(pixel(&buffer, 1, 1), WHITE);
}

#[test]
fn scrolling_leaves_the_bytes_behind_the_screen_alone() {
    let font = font();
    let mut buffer: Vec<u8> = (0..LEN + 8).map(|i| i as u8).collect();
    let before = buffer.clone();
    let mut writer = FrameBufferWriter::new(frame_buffer(), &font);
    writer.scroll_line(&mut buffer);
    assert_eq!(writer.position(), (0, 0));
    assert_eq!(&buffer[..160], &before[160..320]);
    assert!(buffer[160..LEN].iter().all(|&byte| byte == 0));
    assert_eq!(&buffer[LEN..], &before[LEN..]);
}

#[test]
fn text_is_written_character_by_character() {
    let font = font();
    let mut whole = vec![0x77u8; LEN];
    let mut by_parts = vec![0x77u8; LEN];
    let text = "\u{1}\u{2}\u{3}\n\n\u{1}x\u{3}";
    let mut writer = init(frame_buffer(), &font, &mut whole);
    writer.write_str(&mut whole, text);
    let mut other = init(frame_buffer(), &font, &mut by_parts);
    for character in text.chars() {
        other.write_char(&mut by_parts, character);
    }
    assert_eq!(whole, by_parts);
    assert_eq!(writer.position(), other.position());
    assert_eq!(writer.position(), (8, 2));
}

#[test]
fn writing_nothing_changes_nothing() {
    let font = font();
    let mut buffer = vec![0x77u8; LEN];
    let mut writer = init(frame_buffer(), &font, &mut buffer);
    let before = buffer.clone();
    writer.write_str(&mut buffer, "");
    assert_eq!(buffer, before);
    assert_eq!(writer.position(), (0, 0));
}
