//! The drawable screen area, measured in pixels.
//!
//! A terminal cell holds a 2x4 block of Braille dots, so a screen over
//! `cols x rows` cells exposes `cols * 2` pixel columns and `rows * 4`
//! pixel rows. `draw_chars` packs a full pixel grid into the glyph
//! stream that an output sink prints after moving the cursor to the
//! top-left cell: block rows are scanned from the bottom of the grid
//! upward, so the first glyphs of the stream show the highest rows.

use crate::braille;
use crate::braille::block_dots_up;
use crate::braille::glyph_code;
use crate::braille::grid_wf;
use crate::braille::tile_dots;
use vstd::prelude::*;

verus! {

/// The pixel dimensions of the drawable screen area.
pub struct Screen {
    size: (u16, u16),
}

impl Screen {
    /// The stored pixel size, for contracts.
    pub closed spec fn spec_size(&self) -> (u16, u16) {
        self.size
    }

    /// Builds the screen for a terminal of `cols x rows` character
    /// cells, at two pixel columns and four pixel rows per cell.
    pub fn new(cols: u16, rows: u16) -> (s: Screen)
        requires
            cols <= 0x7FFF,
            rows <= 0x3FFF,
        ensures
            s.spec_size().0 == cols * 2,
            s.spec_size().1 == rows * 4,
    {
        Screen { size: (cols * 2, rows * 4) }
    }

    /// The screen size in pixels: `(width, height)`.
    pub fn get_size(&self) -> (size: (u16, u16))
        ensures
            size == self.spec_size(),
    {
        self.size
    }

    /// Encodes one 2x4 tile of pixels as a Braille glyph.
    pub fn into_braille(tile: [[bool; 4]; 2]) -> (c: char)
        ensures
            c as u32 == glyph_code(tile_dots(tile)),
    {
        braille::into_braille(tile)
    }

    /// Encodes the pixel grid as the glyph stream to print from the
    /// top-left cell: one glyph per 2x4 block, block rows from the
    /// bottom of the grid upward, block columns left to right.
    pub fn draw_chars(&self, v: &Vec<Vec<bool>>) -> (chars: Vec<char>)
        requires
            v@.len() > 0,
            v@.len() % 2 == 0,
            grid_wf(v@, v@.len() as int, v@[0]@.len() as int),
            v@[0]@.len() % 4 == 0,
            v@[0]@.len() > 0,
        ensures
            chars@.len() == (v@[0]@.len() / 4) * (v@.len() / 2),
            forall|rb: int, cb: int|
                0 <= rb < v@[0]@.len() / 4 && 0 <= cb < v@.len() / 2 ==> (#[trigger] chars@[rb * (
                v@.len() / 2) + cb]) as u32 == glyph_code(
                    block_dots_up(v@, 2 * cb, v@[0]@.len() - 1 - 4 * rb),
                ),
    {
        encode_rows_upward(v)
    }
}

/// Encodes a pixel grid bottom-up: block row `rb` of the output reads
/// grid rows `h - 1 - 4 * rb` downward to `h - 4 - 4 * rb`, so the
/// first output row shows the top of the drawing.
pub fn encode_rows_upward(v: &Vec<Vec<bool>>) -> (chars: Vec<char>)
    requires
        v@.len() > 0,
        v@.len() % 2 == 0,
        grid_wf(v@, v@.len() as int, v@[0]@.len() as int),
        v@[0]@.len() % 4 == 0,
        v@[0]@.len() > 0,
    ensures
        chars@.len() == (v@[0]@.len() / 4) * (v@.len() / 2),
        forall|rb: int, cb: int|
            0 <= rb < v@[0]@.len() / 4 && 0 <= cb < v@.len() / 2 ==> (#[trigger] chars@[rb * (
            v@.len() / 2) + cb]) as u32 == glyph_code(
                block_dots_up(v@, 2 * cb, v@[0]@.len() - 1 - 4 * rb),
            ),
{
    let w: usize = v.len();
    let h: usize = v[0].len();
    let half_w: usize = w / 2;
    let quarter_h: usize = h / 4;
    let mut chars: Vec<char> = Vec::new();
    let mut rb: usize = 0;
    while rb < quarter_h
        invariant
            w == v@.len(),
            h == v@[0]@.len(),
            half_w == w / 2,
            quarter_h == h / 4,
            w % 2 == 0,
            h % 4 == 0,
            w > 0,
            h > 0,
            grid_wf(v@, w as int, h as int),
            0 <= rb <= quarter_h,
            chars@.len() == rb * half_w,
            forall|i: int|
                0 <= i < chars@.len() ==> (#[trigger] chars@[i]) as u32 == glyph_code(
                    block_dots_up(
                        v@,
                        2 * (i % (half_w as int)),
                        h - 1 - 4 * (i / (half_w as int)),
                    ),
                ),
        decreases quarter_h - rb,
    {
        assert(4 * (h / 4) == h);
        let row: usize = h - 1 - 4 * rb;
        let mut cb: usize = 0;
        while cb < half_w
            invariant
                w == v@.len(),
                h == v@[0]@.len(),
                half_w == w / 2,
                quarter_h == h / 4,
                w % 2 == 0,
                h % 4 == 0,
                w > 0,
                h > 0,
                grid_wf(v@, w as int, h as int),
                0 <= rb < quarter_h,
                row == h - 1 - 4 * rb,
                row >= 3,
                0 <= cb <= half_w,
                chars@.len() == rb * half_w + cb,
                forall|i: int|
                    0 <= i < chars@.len() ==> (#[trigger] chars@[i]) as u32 == glyph_code(
                        block_dots_up(
                            v@,
                            2 * (i % (half_w as int)),
                            h - 1 - 4 * (i / (half_w as int)),
                        ),
                    ),
            decreases half_w - cb,
        {
            let col: usize = 2 * cb;
            assert(2 * (w / 2) == w);
            assert(col + 1 < w);
            let tile: [[bool; 4]; 2] = [
                [v[col][row], v[col][row - 1], v[col][row - 2], v[col][row - 3]],
                [v[col + 1][row], v[col + 1][row - 1], v[col + 1][row - 2], v[col + 1][row - 3]],
            ];
            let glyph = braille::into_braille(tile);
            assert(tile_dots(tile) =~= block_dots_up(v@, 2 * cb as int, row as int));
            proof {
                let i0: int = rb as int * half_w as int + cb as int;
                vstd::arithmetic::div_mod::lemma_fundamental_div_mod_converse(
                    i0,
                    half_w as int,
                    rb as int,
                    cb as int,
                );
            }
            chars.push(glyph);
            cb = cb + 1;
        }
        let ghost prev: int = rb as int;
        rb = rb + 1;
        assert((prev + 1) * half_w == prev * half_w + half_w) by (nonlinear_arith);
    }
    assert forall|rb2: int, cb2: int|
        0 <= rb2 < quarter_h && 0 <= cb2 < half_w implies (#[trigger] chars@[rb2 * (half_w as int)
        + cb2]) as u32 == glyph_code(block_dots_up(v@, 2 * cb2, h - 1 - 4 * rb2)) by {
        let i0: int = rb2 * (half_w as int) + cb2;
        assert(0 <= rb2 * (half_w as int) + cb2 < (quarter_h as int) * (half_w as int))
            by (nonlinear_arith)
            requires
                0 <= rb2 < quarter_h as int,
                0 <= cb2 < half_w as int,
        ;
        vstd::arithmetic::div_mod::lemma_fundamental_div_mod_converse(i0, half_w as int, rb2, cb2);
    }
    chars
}

} // verus!
