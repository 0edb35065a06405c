//! The packed font atlas and the decoding of one glyph.
//!
//! The atlas is a flat byte sequence laid out as a 16 x 16 grid of glyph
//! cells, each 4 pixels wide and 8 pixels tall at 4 bits per pixel: one
//! byte holds one pixel row of two neighbouring glyph columns, the even
//! column in its high nibble and the odd column in its low nibble.
//!
//! A character selects a cell through its first UTF-8 byte alone: the
//! byte's high nibble picks the grid row, its low nibble the grid column.
//! Only characters whose first encoded byte identifies a cell the atlas
//! was authored for are therefore rendered meaningfully; a multi-byte
//! character falls onto whatever cell its leading byte names. Every
//! computed offset is checked against the atlas length, so an
//! out-of-domain character is reported rather than read out of bounds.

use vstd::prelude::*;

verus! {

/// Width of one glyph cell in pixels.
pub const WIDTH: u32 = 4;

/// Height of one glyph cell in pixels.
pub const HEIGHT: u32 = 8;

/// Pixel magnification applied to each glyph pixel when blitting.
pub const SCALE: u32 = 2;

/// Bytes holding one pixel row of all 16 glyph columns of a grid row.
pub const ROW_BYTES: u32 = WIDTH * 16 / 8;

/// The first byte of the UTF-8 encoding of `c`: the glyph selector byte.
pub open spec fn first_utf8_byte(c: char) -> u8 {
    let u = c as int;
    if u < 0x80 {
        u as u8
    } else if u < 0x800 {
        (0xC0 + u / 0x40) as u8
    } else if u < 0x10000 {
        (0xE0 + u / 0x1000) as u8
    } else {
        (0xF0 + u / 0x40000) as u8
    }
}

/// The grid row a selector byte names: its high nibble.
pub open spec fn upper_nibble(b: u8) -> u8 {
    b / 16
}

/// The grid column a selector byte names: its low nibble.
pub open spec fn lower_nibble(b: u8) -> u8 {
    b % 16
}

/// Byte offset of the first atlas byte of the cell at grid row `upper`,
/// grid column `lower`.
pub open spec fn spec_start_offset(upper: int, lower: int) -> int {
    ROW_BYTES as int * HEIGHT as int * upper + WIDTH as int * lower / 8
}

/// Whether the whole byte range the cell at (`upper`, `lower`) is read
/// through lies inside an atlas of `atlas_len` bytes.
pub open spec fn index_in_bounds(atlas_len: int, upper: int, lower: int) -> bool {
    spec_start_offset(upper, lower) + HEIGHT as int * ROW_BYTES as int <= atlas_len
}

/// The 4-bit pixel mask of glyph row `i`, read from the atlas byte at
/// `start + i * ROW_BYTES`: its low nibble when `low_nibble` holds, its
/// high nibble otherwise.
pub open spec fn row_mask(atlas: Seq<u8>, start: int, low_nibble: bool, i: int) -> u8 {
    let b = atlas[start + i * ROW_BYTES as int];
    if low_nibble {
        b % 16
    } else {
        b / 16
    }
}

/// The eight 4-bit row masks of the glyph cell starting at `start`.
pub open spec fn glyph_rows(atlas: Seq<u8>, start: int, low_nibble: bool) -> Seq<u8> {
    Seq::new(HEIGHT as nat, |i: int| row_mask(atlas, start, low_nibble, i))
}

/// Byte offset of the glyph cell selected by character `c`.
pub open spec fn char_start_offset(c: char) -> int {
    spec_start_offset(
        upper_nibble(first_utf8_byte(c)) as int,
        lower_nibble(first_utf8_byte(c)) as int,
    )
}

/// Whether `c`'s glyph data occupies the low nibble of each atlas byte:
/// it does exactly when the selected grid column is odd.
pub open spec fn char_low_nibble(c: char) -> bool {
    lower_nibble(first_utf8_byte(c)) % 2 == 1
}

/// Whether character `c` can be decoded against an atlas with contents
/// `atlas`: the whole byte range of its cell must lie inside the atlas.
pub open spec fn char_in_domain(atlas: Seq<u8>, c: char) -> bool {
    index_in_bounds(
        atlas.len() as int,
        upper_nibble(first_utf8_byte(c)) as int,
        lower_nibble(first_utf8_byte(c)) as int,
    )
}

/// The eight 4-bit row masks of the glyph for character `c`.
pub open spec fn char_rows(atlas: Seq<u8>, c: char) -> Seq<u8> {
    glyph_rows(atlas, char_start_offset(c), char_low_nibble(c))
}

/// The glyph selector byte of `c`: the first byte of its UTF-8 encoding.
pub fn selector_byte(c: char) -> (b: u8)
    ensures
        b == first_utf8_byte(c),
{
    let u = c as u32;
    if u < 0x80 {
        u as u8
    } else if u < 0x800 {
        0xC0 + (u / 0x40) as u8
    } else if u < 0x10000 {
        0xE0 + (u / 0x1000) as u8
    } else {
        0xF0 + (u / 0x40000) as u8
    }
}

/// Grid coordinates of one glyph cell: `upper` is the grid row, `lower`
/// the grid column, each in `0..16`.
#[derive(Clone, Copy, Debug, PartialEq, Eq, Structural)]
pub struct GlyphIndex {
    pub upper: u8,
    pub lower: u8,
}

impl GlyphIndex {
    /// Both coordinates lie inside the 16 x 16 grid.
    pub open spec fn wf(&self) -> bool {
        self.upper < 16 && self.lower < 16
    }

    /// The cell character `c` selects: the two nibbles of its selector byte.
    pub fn of_char(c: char) -> (g: GlyphIndex)
        ensures
            g.wf(),
            g.upper == upper_nibble(first_utf8_byte(c)),
            g.lower == lower_nibble(first_utf8_byte(c)),
    {
        let b = selector_byte(c);
        proof {
            assert(b >> 4u8 == b / 16) by (bit_vector);
            assert(b & 0x0F == b % 16) by (bit_vector);
        }
        GlyphIndex { upper: b >> 4u8, lower: b & 0x0F }
    }
}

/// The pixel mask of one glyph: eight rows of 4 bits each, the
/// most-significant of the 4 bits being the leftmost pixel column.
#[derive(Debug)]
pub struct GlyphBitmap {
    pub rows: Vec<u8>,
}

impl View for GlyphBitmap {
    type V = Seq<u8>;

    open spec fn view(&self) -> Seq<u8> {
        self.rows@
    }
}

impl GlyphBitmap {
    /// Eight rows, each a 4-bit value.
    pub open spec fn wf(&self) -> bool {
        self@.len() == HEIGHT as int && forall|i: int| 0 <= i < self@.len() ==> self@[i] < 16
    }

    /// Row `i` of the mask.
    pub fn row(&self, i: usize) -> (r: u8)
        requires
            i < self@.len(),
        ensures
            r == self@[i as int],
    {
        self.rows[i]
    }
}

/// The packed font resource: a read-only byte sequence addressed only
/// through checked offsets.
pub struct GlyphAtlas {
    data: Vec<u8>,
}

impl View for GlyphAtlas {
    type V = Seq<u8>;

    closed spec fn view(&self) -> Seq<u8> {
        self.data@
    }
}

impl GlyphAtlas {
    /// Wrap raw font data. Nothing is demanded of its length: every
    /// lookup is checked against it.
    pub fn new(data: Vec<u8>) -> (a: GlyphAtlas)
        ensures
            a@ == data@,
    {
        GlyphAtlas { data }
    }

    /// Length of the atlas in bytes.
    pub fn len(&self) -> (n: usize)
        ensures
            n == self@.len(),
    {
        self.data.len()
    }

    /// The byte offset of cell `g`, or `None` when the cell's byte range
    /// would reach past the end of the atlas.
    pub fn start_offset(&self, g: &GlyphIndex) -> (r: Option<usize>)
        requires
            g.wf(),
        ensures
            r is Some <==> index_in_bounds(self@.len() as int, g.upper as int, g.lower as int),
            r matches Some(s) ==> s == spec_start_offset(g.upper as int, g.lower as int),
    {
        let row_bytes: usize = ROW_BYTES as usize;
        proof {
            assert(row_bytes == 8 && HEIGHT as usize == 8 && WIDTH as usize == 4);
        }
        let start: usize = row_bytes * (HEIGHT as usize) * (g.upper as usize)
            + (WIDTH as usize) * (g.lower as usize) / 8;
        if start + (HEIGHT as usize) * row_bytes <= self.data.len() {
            Some(start)
        } else {
            None
        }
    }

    /// Rasterize the glyph cell starting at byte `start`: read one atlas
    /// byte per row and keep the nibble named by `low_nibble`.
    pub fn rasterize(&self, start: usize, low_nibble: bool) -> (bm: GlyphBitmap)
        requires
            start + HEIGHT as int * ROW_BYTES as int <= self@.len(),
        ensures
            bm.wf(),
            bm@ == glyph_rows(self@, start as int, low_nibble),
    {
        let n = self.data.len();
        let mut rows: Vec<u8> = Vec::new();
        let mut i: usize = 0;
        while i < HEIGHT as usize
            invariant
                i <= HEIGHT as usize,
                n == self@.len(),
                start + HEIGHT as int * ROW_BYTES as int <= n,
                rows@.len() == i,
                forall|k: int|
                    0 <= k < i ==> rows@[k] == row_mask(self@, start as int, low_nibble, k),
            decreases HEIGHT as int - i,
        {
            proof {
                assert(ROW_BYTES as usize == 8 && HEIGHT as usize == 8);
            }
            let b = self.data[start + i * (ROW_BYTES as usize)];
            let nib = if low_nibble {
                proof {
                    assert(b & 0x0F == b % 16) by (bit_vector);
                }
                b & 0x0F
            } else {
                proof {
                    assert(b >> 4u8 == b / 16) by (bit_vector);
                }
                b >> 4u8
            };
            rows.push(nib);
            i = i + 1;
        }
        proof {
            assert(rows@ =~= glyph_rows(self@, start as int, low_nibble));
        }
        GlyphBitmap { rows }
    }

    /// Decode the glyph for character `c`: index its cell, check the
    /// bounds, and rasterize. `None` exactly when the cell lies outside
    /// the atlas.
    pub fn decode(&self, c: char) -> (r: Option<GlyphBitmap>)
        ensures
            r is Some <==> char_in_domain(self@, c),
            r matches Some(bm) ==> bm.wf() && bm@ == char_rows(self@, c),
    {
        let g = GlyphIndex::of_char(c);
        match self.start_offset(&g) {
            Some(start) => {
                let low = g.lower % 2 == 1;
                Some(self.rasterize(start, low))
            },
            None => None,
        }
    }
}

/// Bounds law: every cell of the 16 x 16 grid, together with the whole
/// byte range it is read through, fits inside the first 1031 bytes; an
/// atlas of at least 1031 bytes therefore accepts every selector byte.
pub proof fn lemma_index_bounds(upper: int, lower: int, atlas_len: int)
    requires
        0 <= upper < 16,
        0 <= lower < 16,
    ensures
        spec_start_offset(upper, lower) + HEIGHT as int * ROW_BYTES as int <= 1031,
        atlas_len >= 1031 ==> index_in_bounds(atlas_len, upper, lower),
{
    assert(WIDTH as int * lower / 8 <= 7);
    assert(ROW_BYTES as int * HEIGHT as int * upper <= 960);
}

} // verus!
