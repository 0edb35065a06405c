use misaki_font::geometry::Point;
use misaki_font::geometry::Rect;
use misaki_font::glyph::GlyphAtlas;
use misaki_font::render::blit_glyph;
use misaki_font::render::MisakiFontText;
use misaki_font::render::RenderError;
use misaki_font::surface::Color;
use misaki_font::surface::FillOp;
use misaki_font::surface::RecordingSurface;

fn atlas_with(bytes: &[(usize, u8)]) -> GlyphAtlas {
    let mut data = vec![0u8; 1024];
    for &(i, b) in bytes {
        data[i] = b;
    }
    GlyphAtlas::new(data)
}

fn white_fill(x: i32, y: i32) -> FillOp {
    FillOp { rect: Rect { x, y, width: 2, height: 2 }, color: Color { rgb565: 0xFFFF } }
}

#[test]
fn white_is_all_bits_set() {
    assert_eq!(Color::white(), Color { rgb565: 0xFFFF });
}

#[test]
fn full_top_row_blits_four_scaled_squares() {
    // Cell (0, 0) with row 0 = 1111 and all other rows clear.
    let atlas = atlas_with(&[(0, 0xF0)]);
    let mut text = MisakiFontText::new("\u{0}", Point::new(0, 0));
    let mut surface = RecordingSurface::new();
    assert_eq!(text.draw(&atlas, &mut surface), Ok(()));
    assert_eq!(
        surface.log,
        vec![white_fill(0, 0), white_fill(2, 0), white_fill(4, 0), white_fill(6, 0)],
    );
    assert_eq!(text.position, Point::new(8, 0));
}

#[test]
fn blit_draws_rows_top_to_bottom() {
    // Row 0 = 1000, row 7 = 0001.
    let atlas = atlas_with(&[(0, 0x80), (56, 0x10)]);
    let bm = atlas.decode('\u{0}').unwrap();
    let mut surface = RecordingSurface::new();
    let r = blit_glyph(&bm, 10, 20, Color::white(), &mut surface);
    assert_eq!(r, Ok(()));
    assert_eq!(surface.log, vec![white_fill(10, 20), white_fill(16, 34)]);
}

#[test]
fn two_characters_offset_by_cell_width() {
    // 'A' (cell start 256, low nibbles): row 0 = 1111.
    // 'B' (cell start 257, high nibbles): row 0 = 1010.
    let atlas = atlas_with(&[(256, 0x0F), (257, 0xA0)]);
    let mut text = MisakiFontText::new("AB", Point::new(0, 0));
    let mut surface = RecordingSurface::new();
    assert_eq!(text.draw(&atlas, &mut surface), Ok(()));
    assert_eq!(
        surface.log,
        vec![
            white_fill(0, 0),
            white_fill(2, 0),
            white_fill(4, 0),
            white_fill(6, 0),
            white_fill(8, 0),
            white_fill(12, 0),
        ],
    );
    assert_eq!(text.position, Point::new(16, 0));
}

#[test]
fn cursor_advances_per_character_and_keeps_y() {
    let atlas = GlyphAtlas::new(vec![0u8; 1024]);
    let mut text = MisakiFontText::new("abc", Point::new(5, 7));
    let mut surface = RecordingSurface::new();
    assert_eq!(text.draw(&atlas, &mut surface), Ok(()));
    assert_eq!(surface.log.len(), 0);
    assert_eq!(text.position, Point::new(5 + 3 * 8, 7));
}

#[test]
fn cursor_carries_across_draw_calls() {
    let atlas = GlyphAtlas::new(vec![0u8; 1024]);
    let mut text = MisakiFontText::new("ab", Point::new(0, 0));
    let mut surface = RecordingSurface::new();
    assert_eq!(text.draw(&atlas, &mut surface), Ok(()));
    assert_eq!(text.position, Point::new(16, 0));
    assert_eq!(text.draw(&atlas, &mut surface), Ok(()));
    assert_eq!(text.position, Point::new(32, 0));
}

#[test]
fn empty_text_draws_nothing() {
    let atlas = GlyphAtlas::new(vec![0u8; 1024]);
    let mut text = MisakiFontText::new("", Point::new(3, 4));
    let mut surface = RecordingSurface::new();
    assert_eq!(text.draw(&atlas, &mut surface), Ok(()));
    assert_eq!(surface.log.len(), 0);
    assert_eq!(text.position, Point::new(3, 4));
}

#[test]
fn failed_fill_aborts_glyph_and_text() {
    // Cell (0, 0) fully set: 32 fills per glyph.
    let mut cell = Vec::new();
    for i in 0..8 {
        cell.push((8 * i, 0xF0));
    }
    let atlas = atlas_with(&cell);
    let mut text = MisakiFontText::new("\u{0}\u{0}", Point::new(0, 0));
    // Attempts 0, 1 and 2 succeed; attempt 3 fails.
    let mut surface = RecordingSurface::failing_at(3);
    assert_eq!(text.draw(&atlas, &mut surface), Err(RenderError::SurfaceWriteFailure));
    // Exactly the three fills before the failure landed, and no fill was
    // attempted after it: not the rest of the glyph, not the second glyph.
    assert_eq!(surface.log, vec![white_fill(0, 0), white_fill(2, 0), white_fill(4, 0)]);
    assert_eq!(surface.attempts, 4);
    // The cursor still sits before the failed character.
    assert_eq!(text.position, Point::new(0, 0));
}

#[test]
fn unsupported_character_stops_processing() {
    // 'b' (cell start 385, high nibbles) has visible pixels, but stands
    // after the out-of-domain character, so nothing of it is drawn.
    let atlas = atlas_with(&[(385, 0xF0)]);
    let mut text = MisakiFontText::new("a\u{80000}b", Point::new(0, 0));
    let mut surface = RecordingSurface::new();
    assert_eq!(text.draw(&atlas, &mut surface), Err(RenderError::UnsupportedCharacter));
    assert_eq!(surface.log.len(), 0);
    assert_eq!(surface.attempts, 0);
    // The cursor advanced past 'a' only.
    assert_eq!(text.position, Point::new(8, 0));
}
