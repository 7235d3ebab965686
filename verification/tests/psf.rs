use unx::psf::{Font, FontError, FontInfo, HEADER_SIZE, MAGIC};

fn header(magic: u32, version: u32, header_size: u32, glyphs: u32, bytes: u32, height: u32, width: u32) -> Vec<u8> {
    let mut data = Vec::new();
    for word in [magic, version, header_size, 0xffff_ffff, glyphs, bytes, height, width] {
        data.extend_from_slice(&word.to_le_bytes());
    }
    data
}

/// A font of four glyphs, eight pixels wide and two high.
fn small_font() -> Vec<u8> {
    let mut data = header(MAGIC, 0, 32, 3, 2, 2, 8);
    data.extend_from_slice(&[0x00, 0x00, 0b1000_0001, 0b0100_0000, 0xff, 0x0f, 0x55, 0xaa]);
    data
}

#[test]
fn the_header_is_read_as_little_endian_words() {
    let mut data = vec![0x72, 0xb5, 0x4a, 0x86, 0, 0, 0, 0, 32, 0, 0, 0, 9, 9, 9, 9];
    data.extend_from_slice(&[0x04, 0x03, 0x02, 0x01, 0x10, 0, 0, 0, 0, 1, 0, 0, 0x78, 0x56, 0x34, 0x12]);
    assert_eq!(data.len(), HEADER_SIZE);
    assert_eq!(
        FontInfo::new(&data),
        Ok(FontInfo { width: 0x1234_5678, height: 0x100, bytes_per_glyph: 0x10, num_glyphs: 0x0102_0304 })
    );
}

#[test]
fn the_fields_of_the_header_stand_in_their_places() {
    let info = FontInfo::new(&header(MAGIC, 0, 32, 256, 16, 16, 8)).unwrap();
    assert_eq!(info, FontInfo { width: 8, height: 16, bytes_per_glyph: 16, num_glyphs: 256 });
}

#[test]
fn a_font_must_start_with_the_magic_word() {
    assert_eq!(MAGIC, 0x864a_b572);
    assert_eq!(FontInfo::new(&header(0x864a_b573, 0, 32, 1, 1, 1, 1)), Err(FontError::InvalidMagic));
    assert_eq!(FontInfo::new(&header(0x72b5_4a86, 0, 32, 1, 1, 1, 1)), Err(FontError::InvalidMagic));
    assert_eq!(FontInfo::new(&header(0, 1, 0, 1, 1, 1, 1)), Err(FontError::InvalidMagic));
}

#[test]
fn a_font_must_have_version_zero() {
    assert_eq!(FontInfo::new(&header(MAGIC, 1, 32, 1, 1, 1, 1)), Err(FontError::UnknownVersion));
    assert_eq!(FontInfo::new(&header(MAGIC, 0x0100_0000, 31, 1, 1, 1, 1)), Err(FontError::UnknownVersion));
}

#[test]
fn a_font_must_have_a_header_of_32_bytes() {
    assert_eq!(FontInfo::new(&header(MAGIC, 0, 31, 1, 1, 1, 1)), Err(FontError::InvalidHeaderSize));
    assert_eq!(FontInfo::new(&header(MAGIC, 0, 0x2000, 1, 1, 1, 1)), Err(FontError::InvalidHeaderSize));
}

#[test]
fn a_font_knows_its_size() {
    let data = small_font();
    let font = Font::new(&data).unwrap();
    assert_eq!(font.width(), 8);
    assert_eq!(font.height(), 2);
    assert!(font.is_complete());
}

#[test]
fn a_font_with_a_bad_header_is_refused() {
    let mut data = small_font();
    data[0] = 0;
    assert_eq!(Font::new(&data).err(), Some(FontError::InvalidMagic));
    let mut data = small_font();
    data[4] = 2;
    assert_eq!(Font::new(&data).err(), Some(FontError::UnknownVersion));
    let mut data = small_font();
    data[8] = 33;
    assert_eq!(Font::new(&data).err(), Some(FontError::InvalidHeaderSize));
}

#[test]
fn a_glyph_is_found_by_the_code_of_its_character() {
    let data = small_font();
    let font = Font::new(&data).unwrap();
    let glyph = font.glyph('\u{1}').unwrap();
    assert_eq!(glyph.width(), 8);
    assert_eq!(glyph.height(), 2);
    let row = |y| (0..8).map(|x| glyph.pixel(x, y).unwrap()).collect::<Vec<bool>>();
    assert_eq!(row(0), vec![true, false, false, false, false, false, false, true]);
    assert_eq!(row(1), vec![false, true, false, false, false, false, false, false]);
    let glyph = font.glyph('\u{3}').unwrap();
    let row = |y| (0..8).map(|x| glyph.pixel(x, y).unwrap()).collect::<Vec<bool>>();
    assert_eq!(row(0), vec![false, true, false, true, false, true, false, true]);
    assert_eq!(row(1), vec![true, false, true, false, true, false, true, false]);
}

#[test]
fn characters_beyond_the_glyphs_have_none() {
    let data = small_font();
    let font = Font::new(&data).unwrap();
    assert!(font.glyph('\u{0}').is_some());
    assert!(font.glyph('\u{3}').is_some());
    assert!(font.glyph('\u{4}').is_none());
    assert!(font.glyph('A').is_none());
    assert!(font.glyph('\u{10ffff}').is_none());
}

#[test]
fn pixels_outside_a_glyph_are_not_there() {
    let data = small_font();
    let font = Font::new(&data).unwrap();
    let glyph = font.glyph('\u{2}').unwrap();
    assert_eq!(glyph.pixel(0, 0), Some(true));
    assert_eq!(glyph.pixel(3, 1), Some(false));
    assert_eq!(glyph.pixel(4, 1), Some(true));
    assert_eq!(glyph.pixel(9, 0), None);
    assert_eq!(glyph.pixel(0, 3), None);
    assert_eq!(glyph.pixel(u32::MAX, u32::MAX), None);
    assert_eq!(glyph.pixel(8, 0), Some(false));
}

#[test]
fn a_wide_glyph_takes_whole_bytes_for_each_row() {
    let mut data = header(MAGIC, 0, 32, 0, 4, 2, 12);
    data.extend_from_slice(&[0b0000_0001, 0b1001_0000, 0b1000_0000, 0b0001_0000]);
    let font = Font::new(&data).unwrap();
    assert!(font.is_complete());
    let glyph = font.glyph('\u{0}').unwrap();
    let set: Vec<(u32, u32)> = (0..2)
        .flat_map(|y| (0..12).map(move |x| (x, y)))
        .filter(|&(x, y)| glyph.pixel(x, y) == Some(true))
        .collect();
    assert_eq!(set, vec![(7, 0), (8, 0), (11, 0), (0, 1), (11, 1)]);
}

#[test]
fn a_font_that_lacks_bytes_is_not_complete() {
    let mut data = small_font();
    data.pop();
    assert!(!Font::new(&data).unwrap().is_complete());
    let data = header(MAGIC, 0, 32, 0, 1, 2, 8);
    assert!(!Font::new(&data).unwrap().is_complete());
    let mut data = header(MAGIC, 0, 32, 0, 1, 2, 8);
    data.push(0);
    assert!(!Font::new(&data).unwrap().is_complete());
    let mut data = header(MAGIC, 0, 32, 0, 2, 2, 8);
    data.extend_from_slice(&[0, 0]);
    assert!(Font::new(&data).unwrap().is_complete());
    let mut data = header(MAGIC, 0, 32, 0, 2, 2, u32::MAX);
    data.extend_from_slice(&[0, 0]);
    assert!(!Font::new(&data).unwrap().is_complete());
}
