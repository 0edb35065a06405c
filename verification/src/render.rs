//! The renderer: blitting one glyph and driving a run of characters.
//!
//! What a render call does to the surface is stated over the surface's
//! fill log: the fills of one glyph are listed row by row, top to bottom,
//! and left to right within a row; the fills of a text are the glyphs'
//! fills in character order, each glyph one cell width further right.
//! A render call appends exactly the text's fills on success, and a
//! prefix of them when the surface refuses a fill.

use vstd::prelude::*;
use vstd::string::StrSliceExecFns;

use crate::geometry::Point;
use crate::geometry::Rect;
use crate::glyph::char_in_domain;
use crate::glyph::char_rows;
use crate::glyph::GlyphAtlas;
use crate::glyph::GlyphBitmap;
use crate::glyph::HEIGHT;
use crate::glyph::SCALE;
use crate::glyph::WIDTH;
use crate::surface::Color;
use crate::surface::DrawSurface;
use crate::surface::FillOp;

verus! {

/// Why a render call stopped early.
#[derive(Clone, Copy, Debug, PartialEq, Eq, Structural)]
pub enum RenderError {
    /// The character's glyph cell lies outside the atlas bounds.
    UnsupportedCharacter,
    /// A rectangle fill on the drawing surface reported failure.
    SurfaceWriteFailure,
}

/// Whether pixel column `j` (counted left to right from zero) of a 4-bit
/// row mask is foreground: bit `3 - j` of the mask.
pub open spec fn bit_of(row: u8, j: int) -> bool {
    if j == 0 {
        row / 8 % 2 == 1
    } else if j == 1 {
        row / 4 % 2 == 1
    } else if j == 2 {
        row / 2 % 2 == 1
    } else {
        row % 2 == 1
    }
}

/// The fill that paints one glyph pixel whose scaled top-left corner is
/// at surface position (`x`, `y`).
pub open spec fn pixel_fill(x: int, y: int, color: Color) -> FillOp {
    FillOp { rect: Rect { x: x as i32, y: y as i32, width: SCALE, height: SCALE }, color }
}

/// The fills of row mask `row` from pixel column `j` rightwards, the row's
/// scaled origin being (`x`, `y`).
pub open spec fn row_ops(row: u8, x: int, y: int, color: Color, j: int) -> Seq<FillOp>
    decreases WIDTH as int - j,
{
    if j < 0 || j >= WIDTH as int {
        Seq::empty()
    } else {
        let rest = row_ops(row, x, y, color, j + 1);
        if bit_of(row, j) {
            seq![pixel_fill(x + SCALE as int * j, y, color)] + rest
        } else {
            rest
        }
    }
}

/// The fills of glyph rows `i` and below, the glyph's scaled origin being
/// (`x`, `y`).
pub open spec fn rows_from_ops(rows: Seq<u8>, x: int, y: int, color: Color, i: int) -> Seq<FillOp>
    decreases HEIGHT as int - i,
{
    if i < 0 || i >= HEIGHT as int {
        Seq::empty()
    } else {
        row_ops(rows[i], x, y + SCALE as int * i, color, 0)
            + rows_from_ops(rows, x, y, color, i + 1)
    }
}

/// All fills of one glyph at origin (`x`, `y`): rows top to bottom, and
/// pixels left to right within a row.
pub open spec fn glyph_ops(rows: Seq<u8>, x: int, y: int, color: Color) -> Seq<FillOp> {
    rows_from_ops(rows, x, y, color, 0)
}

/// All fills of a run of characters starting at (`x`, `y`): the glyphs'
/// fills in character order, each glyph one cell width (`WIDTH * SCALE`
/// pixels) further right than the one before.
pub open spec fn text_ops(atlas: Seq<u8>, text: Seq<char>, x: int, y: int, color: Color) -> Seq<
    FillOp,
>
    decreases text.len(),
{
    if text.len() == 0 {
        Seq::empty()
    } else {
        glyph_ops(char_rows(atlas, text[0]), x, y, color)
            + text_ops(atlas, text.drop_first(), x + (WIDTH * SCALE) as int, y, color)
    }
}

/// How many leading characters of `text` are in the atlas's domain:
/// the index of the first character whose cell falls outside the atlas,
/// or the text's length when every cell fits.
pub open spec fn domain_prefix_len(atlas: Seq<u8>, text: Seq<char>) -> int
    decreases text.len(),
{
    if text.len() == 0 {
        0
    } else if !char_in_domain(atlas, text[0]) {
        0
    } else {
        1 + domain_prefix_len(atlas, text.drop_first())
    }
}

/// The fills a render call starting at `pos` appends for `text`, drawn in
/// the fixed white foreground.
pub open spec fn draw_ops(atlas: Seq<u8>, text: Seq<char>, pos: Point) -> Seq<FillOp> {
    text_ops(atlas, text, pos.x as int, pos.y as int, Color::white_spec())
}

/// Horizontal cursor position after `n` glyphs starting from `x`: each
/// glyph advances the cursor one cell width, `WIDTH * SCALE` = 8 pixels.
pub open spec fn advanced(x: int, n: int) -> int {
    x + 8 * n
}

/// `domain_prefix_len` is the unique `k` such that the first `k`
/// characters are in the atlas's domain and, unless `k` is the length,
/// character `k` is not.
proof fn lemma_domain_prefix_char(atlas: Seq<u8>, text: Seq<char>, k: int)
    requires
        0 <= k <= text.len(),
        forall|i: int| 0 <= i < k ==> char_in_domain(atlas, text[i]),
        k < text.len() ==> !char_in_domain(atlas, text[k]),
    ensures
        domain_prefix_len(atlas, text) == k,
    decreases k,
{
    if k == 0 {
    } else {
        assert(char_in_domain(atlas, text[0]));
        let rest = text.drop_first();
        assert forall|i: int| 0 <= i < k - 1 implies char_in_domain(atlas, rest[i]) by {
            assert(rest[i] == text[i + 1]);
        }
        if k - 1 < rest.len() {
            assert(rest[k - 1] == text[k]);
        }
        lemma_domain_prefix_char(atlas, rest, k - 1);
    }
}

/// Glyph offset law: appending one character to a text appends exactly
/// that character's glyph fills, shifted right by one cell width
/// (`WIDTH * SCALE` pixels) for each character before it. Rendering "AB"
/// therefore paints 'A' unshifted and 'B' shifted one cell right.
pub proof fn lemma_text_ops_push(atlas: Seq<u8>, s: Seq<char>, c: char, x: int, y: int, color: Color)
    ensures
        text_ops(atlas, s.push(c), x, y, color) == text_ops(atlas, s, x, y, color) + glyph_ops(
            char_rows(atlas, c),
            advanced(x, s.len() as int),
            y,
            color,
        ),
    decreases s.len(),
{
    let w = (WIDTH * SCALE) as int;
    let g = glyph_ops(char_rows(atlas, c), advanced(x, s.len() as int), y, color);
    if s.len() == 0 {
        assert(s.push(c)[0] == c);
        assert(s.push(c).drop_first() =~= Seq::<char>::empty());
        assert(text_ops(atlas, s.push(c).drop_first(), x + w, y, color) == Seq::<FillOp>::empty());
        assert(text_ops(atlas, s, x, y, color) == Seq::<FillOp>::empty());
        assert(advanced(x, 0) == x);
        assert(text_ops(atlas, s.push(c), x, y, color) =~= text_ops(atlas, s, x, y, color) + g);
    } else {
        let t = s.push(c);
        assert(t[0] == s[0]);
        assert(t.drop_first() =~= s.drop_first().push(c));
        lemma_text_ops_push(atlas, s.drop_first(), c, x + w, y, color);
        assert(w == 8);
        assert(s.drop_first().len() as int == s.len() as int - 1);
        assert(advanced(x + w, s.drop_first().len() as int) == advanced(x, s.len() as int));
        let g0 = glyph_ops(char_rows(atlas, s[0]), x, y, color);
        let rest = text_ops(atlas, s.drop_first(), x + w, y, color);
        assert(text_ops(atlas, t, x, y, color) == g0 + (rest + g));
        assert(g0 + (rest + g) =~= (g0 + rest) + g);
    }
}

/// Blitter: issue one scaled rectangle fill per set bit of the glyph
/// mask, rows top to bottom and pixels left to right, and stop at the
/// first fill the surface refuses.
///
/// On success the surface's fill log grows by exactly the glyph's fills;
/// on failure it grows by a proper prefix of them and the error names the
/// surface write failure.
#[verifier::loop_isolation(false)]
pub fn blit_glyph<S: DrawSurface>(
    bm: &GlyphBitmap,
    x: i32,
    y: i32,
    color: Color,
    target: &mut S,
) -> (r: Result<(), RenderError>)
    requires
        bm.wf(),
        x + (WIDTH * SCALE) as int <= i32::MAX,
        y + (HEIGHT * SCALE) as int <= i32::MAX,
    ensures
        r is Ok ==> final(target).fills() == old(target).fills() + glyph_ops(
            bm@,
            x as int,
            y as int,
            color,
        ),
        r is Err ==> r == Err::<(), RenderError>(RenderError::SurfaceWriteFailure),
        r is Err ==> exists|m: int|
            0 <= m < glyph_ops(bm@, x as int, y as int, color).len() && final(target).fills()
                == old(target).fills() + glyph_ops(bm@, x as int, y as int, color).take(m),
{
    let ghost ops = glyph_ops(bm@, x as int, y as int, color);
    let ghost mut emitted: Seq<FillOp> = Seq::empty();
    proof {
        assert(emitted + rows_from_ops(bm@, x as int, y as int, color, 0) =~= ops);
    }
    let mut i: usize = 0;
    while i < HEIGHT as usize
        invariant
            i <= HEIGHT as usize,
            target.fills() == old(target).fills() + emitted,
            emitted + rows_from_ops(bm@, x as int, y as int, color, i as int) == ops,
        decreases HEIGHT as int - i,
    {
        let row = bm.row(i);
        let ghost row_y = y as int + SCALE as int * i as int;
        proof {
            assert(rows_from_ops(bm@, x as int, y as int, color, i as int) == row_ops(
                row,
                x as int,
                row_y,
                color,
                0,
            ) + rows_from_ops(bm@, x as int, y as int, color, i as int + 1));
            assert((emitted + (row_ops(row, x as int, row_y, color, 0) + rows_from_ops(
                bm@,
                x as int,
                y as int,
                color,
                i as int + 1,
            ))) =~= ((emitted + row_ops(row, x as int, row_y, color, 0)) + rows_from_ops(
                bm@,
                x as int,
                y as int,
                color,
                i as int + 1,
            )));
        }
        let mut j: usize = 0;
        while j < WIDTH as usize
            invariant
                i < HEIGHT as usize,
                j <= WIDTH as usize,
                row == bm@[i as int],
                row_y == y as int + SCALE as int * i as int,
                target.fills() == old(target).fills() + emitted,
                (emitted + row_ops(row, x as int, row_y, color, j as int)) + rows_from_ops(
                    bm@,
                    x as int,
                    y as int,
                    color,
                    i as int + 1,
                ) == ops,
            decreases WIDTH as int - j,
        {
            let ghost rest_rows = rows_from_ops(bm@, x as int, y as int, color, i as int + 1);
            let jb: u8 = j as u8;
            let shift: u8 = 3 - jb;
            let mask: u8 = 1u8 << shift;
            proof {
                assert(shift == (3 - jb) as u8);
                assert(mask == 1u8 << ((3 - jb) as u8));
                lemma_bit_mask(row, jb);
                assert(jb as int == j as int);
            }
            if mask & row > 0 {
                let fx = x + (j as i32) * (SCALE as i32);
                let fy = y + (i as i32) * (SCALE as i32);
                let rect = Rect { x: fx, y: fy, width: SCALE, height: SCALE };
                let ghost op = pixel_fill(x as int + SCALE as int * j as int, row_y, color);
                proof {
                    assert(bit_of(row, j as int));
                    assert(rect == op.rect);
                    assert(row_ops(row, x as int, row_y, color, j as int) == seq![op] + row_ops(
                        row,
                        x as int,
                        row_y,
                        color,
                        j as int + 1,
                    ));
                }
                match target.fill_rect(rect, color) {
                    Ok(_) => {
                        proof {
                            let e0 = emitted;
                            assert(target.fills() == (old(target).fills() + e0).push(op));
                            assert((old(target).fills() + e0).push(op) =~= old(target).fills()
                                + e0.push(op));
                            assert(e0.push(op) =~= e0 + seq![op]);
                            assert(((e0 + seq![op]) + row_ops(
                                row,
                                x as int,
                                row_y,
                                color,
                                j as int + 1,
                            )) + rest_rows =~= (e0 + (seq![op] + row_ops(
                                row,
                                x as int,
                                row_y,
                                color,
                                j as int + 1,
                            ))) + rest_rows);
                            emitted = e0.push(op);
                            assert((emitted + row_ops(row, x as int, row_y, color, j as int + 1))
                                + rest_rows == ops);
                        }
                    },
                    Err(_) => {
                        proof {
                            let m = emitted.len() as int;
                            assert(ops =~= emitted + (row_ops(
                                row,
                                x as int,
                                row_y,
                                color,
                                j as int,
                            ) + rest_rows));
                            assert(row_ops(row, x as int, row_y, color, j as int).len() >= 1);
                            assert(ops.take(m) =~= emitted);
                            assert(0 <= m < ops.len() && target.fills() == old(target).fills()
                                + ops.take(m));
                        }
                        return Err(RenderError::SurfaceWriteFailure);
                    },
                }
            } else {
                proof {
                    assert(!bit_of(row, j as int));
                    assert(row_ops(row, x as int, row_y, color, j as int) == row_ops(
                        row,
                        x as int,
                        row_y,
                        color,
                        j as int + 1,
                    ));
                }
            }
            j = j + 1;
        }
        proof {
            assert(row_ops(row, x as int, row_y, color, WIDTH as int) =~= Seq::<FillOp>::empty());
            assert((emitted + Seq::<FillOp>::empty()) =~= emitted);
            assert(emitted + rows_from_ops(bm@, x as int, y as int, color, i as int + 1) == ops);
        }
        i = i + 1;
    }
    proof {
        assert(rows_from_ops(bm@, x as int, y as int, color, HEIGHT as int) =~= Seq::<
            FillOp,
        >::empty());
        assert((emitted + Seq::<FillOp>::empty()) =~= emitted);
    }
    Ok(())
}

/// The domain prefix is never negative.
proof fn lemma_domain_prefix_nonneg(atlas: Seq<u8>, text: Seq<char>)
    ensures
        domain_prefix_len(atlas, text) >= 0,
    decreases text.len(),
{
    if text.len() != 0 && char_in_domain(atlas, text[0]) {
        lemma_domain_prefix_nonneg(atlas, text.drop_first());
    }
}

/// Every index below `k` in the atlas's domain pushes the domain prefix
/// to at least `k`.
proof fn lemma_domain_prefix_at_least(atlas: Seq<u8>, text: Seq<char>, k: int)
    requires
        0 <= k <= text.len(),
        forall|i: int| 0 <= i < k ==> char_in_domain(atlas, text[i]),
    ensures
        domain_prefix_len(atlas, text) >= k,
    decreases k,
{
    lemma_domain_prefix_nonneg(atlas, text);
    if k > 0 {
        assert(char_in_domain(atlas, text[0]));
        let rest = text.drop_first();
        assert forall|i: int| 0 <= i < k - 1 implies char_in_domain(atlas, rest[i]) by {
            assert(rest[i] == text[i + 1]);
        }
        lemma_domain_prefix_at_least(atlas, rest, k - 1);
    }
}

/// A run of text and the cursor it is drawn from. The cursor belongs to
/// the value, so a later draw call continues from wherever the previous
/// call left it.
pub struct MisakiFontText<'a> {
    pub text: &'a str,
    pub position: Point,
}

impl<'a> MisakiFontText<'a> {
    /// A renderer for `text` whose cursor starts at `position`.
    pub fn new(text: &'a str, position: Point) -> (t: MisakiFontText<'a>)
        ensures
            t.text@ == text@,
            t.position == position,
    {
        MisakiFontText { text, position }
    }

    /// Render the text onto `target` in white, one glyph per character in
    /// order, advancing the cursor one cell width (`WIDTH * SCALE` pixels)
    /// after each glyph. The vertical position never changes.
    ///
    /// On success the surface's fill log grows by exactly the text's
    /// fills. A character whose glyph cell lies outside the atlas stops
    /// the call with `UnsupportedCharacter`: the glyphs before it are
    /// drawn in full, and the cursor rests after them. A refused fill
    /// stops the call with `SurfaceWriteFailure`: the log then grows by
    /// the full glyphs of some leading run of characters plus a proper
    /// prefix of the next glyph's fills, and no later character is
    /// touched.
    #[verifier::loop_isolation(false)]
    pub fn draw<S: DrawSurface>(&mut self, atlas: &GlyphAtlas, target: &mut S) -> (r: Result<
        (),
        RenderError,
    >)
        requires
            advanced(old(self).position.x as int, old(self).text@.len() as int) <= i32::MAX,
            old(self).text@.len() > 0 ==> old(self).position.y + (HEIGHT * SCALE) as int
                <= i32::MAX,
        ensures
            final(self).text@ == old(self).text@,
            final(self).position.y == old(self).position.y,
            r is Ok ==> domain_prefix_len(atlas@, old(self).text@) == old(self).text@.len(),
            r is Ok ==> final(self).position.x == advanced(
                old(self).position.x as int,
                old(self).text@.len() as int,
            ),
            r is Ok ==> final(target).fills() == old(target).fills() + draw_ops(
                atlas@,
                old(self).text@,
                old(self).position,
            ),
            r == Err::<(), RenderError>(RenderError::UnsupportedCharacter) ==> domain_prefix_len(
                atlas@,
                old(self).text@,
            ) < old(self).text@.len(),
            r == Err::<(), RenderError>(RenderError::UnsupportedCharacter) ==> final(
                self
            ).position.x == advanced(
                old(self).position.x as int,
                domain_prefix_len(atlas@, old(self).text@),
            ),
            r == Err::<(), RenderError>(RenderError::UnsupportedCharacter) ==> final(
                target
            ).fills() == old(target).fills() + draw_ops(
                atlas@,
                old(self).text@.take(domain_prefix_len(atlas@, old(self).text@)),
                old(self).position,
            ),
            r == Err::<(), RenderError>(RenderError::SurfaceWriteFailure) ==> exists|
                k: int,
                m: int,
            |
                0 <= k < old(self).text@.len() && k < domain_prefix_len(atlas@, old(self).text@)
                    && final(self).position.x == advanced(old(self).position.x as int, k) && 0 <= m
                    < glyph_ops(
                    char_rows(atlas@, old(self).text@[k]),
                    advanced(old(self).position.x as int, k),
                    old(self).position.y as int,
                    Color::white_spec(),
                ).len() && final(target).fills() == old(target).fills() + draw_ops(
                    atlas@,
                    old(self).text@.take(k),
                    old(self).position,
                ) + glyph_ops(
                    char_rows(atlas@, old(self).text@[k]),
                    advanced(old(self).position.x as int, k),
                    old(self).position.y as int,
                    Color::white_spec(),
                ).take(m),
    {
        let ghost t = old(self).text@;
        let ghost x0 = old(self).position.x as int;
        let ghost y0 = old(self).position.y as int;
        let ghost pos0 = old(self).position;
        let white = Color::white();
        let n = self.text.unicode_len();
        let mut k: usize = 0;
        while k < n
            invariant
                k <= n,
                n == t.len(),
                self.text@ == t,
                self.position.y == old(self).position.y,
                self.position.x as int == advanced(x0, k as int),
                forall|i: int| 0 <= i < k ==> char_in_domain(atlas@, t[i]),
                target.fills() == old(target).fills() + text_ops(
                    atlas@,
                    t.take(k as int),
                    x0,
                    y0,
                    Color::white_spec(),
                ),
            decreases n - k,
        {
            let c = self.text.get_char(k);
            match atlas.decode(c) {
                Some(bm) => {
                    let px = self.position.x;
                    let py = self.position.y;
                    proof {
                        assert((WIDTH * SCALE) as int == 8 && (HEIGHT * SCALE) as int == 16);
                    }
                    match blit_glyph(&bm, px, py, white, target) {
                        Ok(_) => {
                            proof {
                                lemma_text_ops_push(
                                    atlas@,
                                    t.take(k as int),
                                    t[k as int],
                                    x0,
                                    y0,
                                    Color::white_spec(),
                                );
                                assert(t.take(k as int).push(t[k as int]) =~= t.take(k as int + 1));
                                assert((old(target).fills() + text_ops(
                                    atlas@,
                                    t.take(k as int),
                                    x0,
                                    y0,
                                    Color::white_spec(),
                                )) + glyph_ops(bm@, px as int, py as int, white) =~= old(
                                    target,
                                ).fills() + (text_ops(
                                    atlas@,
                                    t.take(k as int),
                                    x0,
                                    y0,
                                    Color::white_spec(),
                                ) + glyph_ops(
                                    char_rows(atlas@, t[k as int]),
                                    advanced(x0, t.take(k as int).len() as int),
                                    y0,
                                    Color::white_spec(),
                                )));
                            }
                            self.position.x = self.position.x + ((WIDTH * SCALE) as i32);
                            k = k + 1;
                        },
                        Err(_) => {
                            proof {
                                lemma_domain_prefix_at_least(atlas@, t, k as int + 1);
                                let gops = glyph_ops(
                                    char_rows(atlas@, t[k as int]),
                                    advanced(x0, k as int),
                                    y0,
                                    Color::white_spec(),
                                );
                                let m = choose|m: int|
                                    0 <= m < glyph_ops(bm@, px as int, py as int, white).len()
                                        && target.fills() == (old(target).fills() + text_ops(
                                        atlas@,
                                        t.take(k as int),
                                        x0,
                                        y0,
                                        Color::white_spec(),
                                    )) + glyph_ops(bm@, px as int, py as int, white).take(m);
                                assert(gops == glyph_ops(bm@, px as int, py as int, white));
                                assert(0 <= (k as int) && (k as int) < t.len() && (
                                k as int) < domain_prefix_len(
                                    atlas@,
                                    t,
                                ) && self.position.x == advanced(x0, k as int) && 0 <= m
                                    < gops.len() && target.fills() == old(target).fills()
                                    + draw_ops(atlas@, t.take(k as int), pos0) + gops.take(m));
                            }
                            return Err(RenderError::SurfaceWriteFailure);
                        },
                    }
                },
                None => {
                    proof {
                        lemma_domain_prefix_char(atlas@, t, k as int);
                    }
                    return Err(RenderError::UnsupportedCharacter);
                },
            }
        }
        proof {
            lemma_domain_prefix_char(atlas@, t, n as int);
            assert(t.take(n as int) =~= t);
        }
        Ok(())
    }
}

/// The exec bit test `(1 << (3 - j)) & row > 0` reads exactly pixel
/// column `j` of the 4-bit row mask.
proof fn lemma_bit_mask(row: u8, j: u8)
    requires
        j < 4,
    ensures
        ((1u8 << ((3 - j) as u8)) & row > 0) <==> bit_of(row, j as int),
{
    assert((j == 0 ==> (((1u8 << ((3 - j) as u8)) & row > 0) <==> (row / 8 % 2 == 1))) && (j == 1
        ==> (((1u8 << ((3 - j) as u8)) & row > 0) <==> (row / 4 % 2 == 1))) && (j == 2 ==> (((1u8
        << ((3 - j) as u8)) & row > 0) <==> (row / 2 % 2 == 1))) && (j == 3 ==> (((1u8 << ((3 - j)
        as u8)) & row > 0) <==> (row % 2 == 1)))) by (bit_vector);
}

} // verus!
