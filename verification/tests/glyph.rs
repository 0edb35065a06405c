use misaki_font::glyph::selector_byte;
use misaki_font::glyph::GlyphAtlas;
use misaki_font::glyph::GlyphIndex;

fn atlas_with(bytes: &[(usize, u8)]) -> GlyphAtlas {
    let mut data = vec![0u8; 1024];
    for &(i, b) in bytes {
        data[i] = b;
    }
    GlyphAtlas::new(data)
}

#[test]
fn selector_byte_is_first_utf8_byte() {
    assert_eq!(selector_byte('A'), 0x41);
    assert_eq!(selector_byte('z'), 0x7A);
    assert_eq!(selector_byte(' '), 0x20);
    // U+00E9 encodes as C3 A9: only the leading byte selects.
    assert_eq!(selector_byte('\u{E9}'), 0xC3);
    // U+3042 encodes as E3 81 82.
    assert_eq!(selector_byte('\u{3042}'), 0xE3);
    // U+80000 encodes as F2 A0 80 80.
    assert_eq!(selector_byte('\u{80000}'), 0xF2);
}

#[test]
fn glyph_index_splits_nibbles() {
    assert_eq!(GlyphIndex::of_char('A'), GlyphIndex { upper: 4, lower: 1 });
    assert_eq!(GlyphIndex::of_char('\u{0}'), GlyphIndex { upper: 0, lower: 0 });
    assert_eq!(GlyphIndex::of_char('\u{7F}'), GlyphIndex { upper: 7, lower: 15 });
}

#[test]
fn decode_reads_high_nibble_for_even_column() {
    // Cell (0, 0): row 0 is the high nibble of byte 0.
    let atlas = atlas_with(&[(0, 0xF0)]);
    let bm = atlas.decode('\u{0}').unwrap();
    assert_eq!(bm.row(0), 0x0F);
    for i in 1..8 {
        assert_eq!(bm.row(i), 0x00);
    }
}

#[test]
fn decode_reads_low_nibble_for_odd_column() {
    // 'A' is 0x41: grid row 4, grid column 1, so its cell starts at
    // byte 8 * 8 * 4 = 256 and lives in the low nibbles.
    let atlas = atlas_with(&[(256, 0x2A), (256 + 8, 0x05)]);
    let bm = atlas.decode('A').unwrap();
    assert_eq!(bm.row(0), 0x0A);
    assert_eq!(bm.row(1), 0x05);
    for i in 2..8 {
        assert_eq!(bm.row(i), 0x00);
    }
}

#[test]
fn decode_is_deterministic() {
    let atlas = atlas_with(&[(256, 0x07), (256 + 16, 0x0C)]);
    let first = atlas.decode('A').unwrap();
    let second = atlas.decode('A').unwrap();
    for i in 0..8 {
        assert_eq!(first.row(i), second.row(i));
    }
}

#[test]
fn decode_checks_atlas_bounds() {
    // 'A' needs bytes 256..320; a 100-byte atlas cannot hold them.
    let atlas = GlyphAtlas::new(vec![0u8; 100]);
    assert!(atlas.decode('A').is_none());
    // Cell (0, 0) needs bytes 0..64, which a 100-byte atlas has.
    assert!(atlas.decode('\u{0}').is_some());
}

#[test]
fn decode_rejects_cell_past_full_atlas() {
    // Selector 0xF2 names the cell starting at byte 961, whose checked
    // range 961..1025 leaves a 1024-byte atlas.
    let atlas = GlyphAtlas::new(vec![0u8; 1024]);
    assert!(atlas.decode('\u{80000}').is_none());
    // One extra row strip of bytes admits every cell.
    let atlas = GlyphAtlas::new(vec![0u8; 1031]);
    assert!(atlas.decode('\u{80000}').is_some());
}

#[test]
fn atlas_reports_length() {
    let atlas = GlyphAtlas::new(vec![0u8; 77]);
    assert_eq!(atlas.len(), 77);
}
