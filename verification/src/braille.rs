//! Packing a 2-wide by 4-tall block of dots into one Unicode Braille glyph.
//!
//! The Braille block starts at U+2800. Within a 2x4 tile laid out as
//! columns `{left, right}` and rows `{0, 1, 2, 3}` top to bottom, the bit
//! that each dot contributes follows the Braille standard ordering
//! `[left0, left1, left2, right0, right1, right2, left3, right3]`.

use vstd::prelude::*;

verus! {

/// The contribution of one dot to the glyph's bit pattern.
pub open spec fn dot_bit(d: bool) -> int {
    if d {
        1
    } else {
        0
    }
}

/// The code point of the Braille glyph whose eight dots, in standard
/// Braille bit order, are `d`.
pub open spec fn glyph_code(d: Seq<bool>) -> int
    recommends
        d.len() == 8,
{
    0x2800 + dot_bit(d[0]) + 2 * dot_bit(d[1]) + 4 * dot_bit(d[2]) + 8 * dot_bit(d[3]) + 16
        * dot_bit(d[4]) + 32 * dot_bit(d[5]) + 64 * dot_bit(d[6]) + 128 * dot_bit(d[7])
}

/// The dots of a 2x4 tile (`tile[column][row]`) in standard Braille bit
/// order: the top three rows of the left column, the top three rows of
/// the right column, then the bottom row left to right.
pub open spec fn tile_dots(tile: [[bool; 4]; 2]) -> Seq<bool> {
    seq![
        tile[0][0],
        tile[0][1],
        tile[0][2],
        tile[1][0],
        tile[1][1],
        tile[1][2],
        tile[0][3],
        tile[1][3],
    ]
}

/// Relies on char::from_u32: for any value that is a Unicode scalar
/// (here, below the surrogate range) it returns the character with
/// exactly that code point.
#[verifier::external_body]
fn char_from_code(code: u32) -> (c: char)
    requires
        code < 0xD800,
    ensures
        c as u32 == code,
{
    char::from_u32(code).unwrap()
}

/// A pixel grid held as columns: `g[x][y]` is the dot at column `x`,
/// row `y`. Every column has the same height.
pub open spec fn grid_wf(g: Seq<Vec<bool>>, w: int, h: int) -> bool {
    &&& g.len() == w
    &&& forall|x: int| 0 <= x < w ==> (#[trigger] g[x])@.len() == h
}

/// The dots of the 2x4 block of `g` whose top-left dot is
/// `(col, row)`, in standard Braille bit order, reading rows downward
/// from `row`.
pub open spec fn block_dots(g: Seq<Vec<bool>>, col: int, row: int) -> Seq<bool> {
    seq![
        g[col]@[row],
        g[col]@[row + 1],
        g[col]@[row + 2],
        g[col + 1]@[row],
        g[col + 1]@[row + 1],
        g[col + 1]@[row + 2],
        g[col]@[row + 3],
        g[col + 1]@[row + 3],
    ]
}

/// The dots of the 2x4 block of `g` whose bottom-left dot is
/// `(col, row)`, in standard Braille bit order, reading rows upward
/// from `row`. Used by the encoders that scan the grid from the
/// bottom so that the top line of output shows the highest rows.
pub open spec fn block_dots_up(g: Seq<Vec<bool>>, col: int, row: int) -> Seq<bool> {
    seq![
        g[col]@[row],
        g[col]@[row - 1],
        g[col]@[row - 2],
        g[col + 1]@[row],
        g[col + 1]@[row - 1],
        g[col + 1]@[row - 2],
        g[col]@[row - 3],
        g[col + 1]@[row - 3],
    ]
}

/// Encodes eight dots, given in standard Braille bit order, as one
/// Braille glyph.
pub fn encode_glyph(dots: [bool; 8]) -> (c: char)
    ensures
        c as u32 == glyph_code(dots@),
{
    let mut pattern: u32 = 0x2800;
    if dots[0] {
        pattern = pattern + 1;
    }
    if dots[1] {
        pattern = pattern + 2;
    }
    if dots[2] {
        pattern = pattern + 4;
    }
    if dots[3] {
        pattern = pattern + 8;
    }
    if dots[4] {
        pattern = pattern + 16;
    }
    if dots[5] {
        pattern = pattern + 32;
    }
    if dots[6] {
        pattern = pattern + 64;
    }
    if dots[7] {
        pattern = pattern + 128;
    }
    char_from_code(pattern)
}

/// Encodes one 2x4 tile (`tile[column][row]`, rows top to bottom) as a
/// Braille glyph.
pub fn into_braille(tile: [[bool; 4]; 2]) -> (c: char)
    ensures
        c as u32 == glyph_code(tile_dots(tile)),
{
    encode_glyph(
        [
            tile[0][0],
            tile[0][1],
            tile[0][2],
            tile[1][0],
            tile[1][1],
            tile[1][2],
            tile[0][3],
            tile[1][3],
        ],
    )
}

/// Encodes a whole pixel grid as Braille glyphs, one per 2x4 block,
/// scanning block rows from the top of the grid downward and block
/// columns left to right.
pub fn into_char_buffer(v: &Vec<Vec<bool>>) -> (chars: Vec<char>)
    requires
        v@.len() > 0,
        v@.len() % 2 == 0,
        grid_wf(v@, v@.len() as int, v@[0]@.len() as int),
        v@[0]@.len() % 4 == 0,
    ensures
        chars@.len() == (v@[0]@.len() / 4) * (v@.len() / 2),
        forall|rb: int, cb: int|
            0 <= rb < v@[0]@.len() / 4 && 0 <= cb < v@.len() / 2 ==> (#[trigger] chars@[rb * (
            v@.len() / 2) + cb]) as u32 == glyph_code(block_dots(v@, 2 * cb, 4 * rb)),
{
    let w: usize = v.len();
    let h: usize = v[0].len();
    let half_w: usize = w / 2;
    let quarter_h: usize = h / 4;
    let mut chars: Vec<char> = Vec::new();
    let mut rb: usize = 0;
    while rb < quarter_h
        invariant
            w == v@.len(),
            h == v@[0]@.len(),
            half_w == w / 2,
            quarter_h == h / 4,
            w % 2 == 0,
            h % 4 == 0,
            w > 0,
            grid_wf(v@, w as int, h as int),
            0 <= rb <= quarter_h,
            chars@.len() == rb * half_w,
            forall|i: int|
                0 <= i < chars@.len() ==> (#[trigger] chars@[i]) as u32 == glyph_code(
                    block_dots(v@, 2 * (i % (half_w as int)), 4 * (i / (half_w as int)))),
        decreases quarter_h - rb,
    {
        let row: usize = 4 * rb;
        let mut cb: usize = 0;
        while cb < half_w
            invariant
                w == v@.len(),
                h == v@[0]@.len(),
                half_w == w / 2,
                quarter_h == h / 4,
                w % 2 == 0,
                h % 4 == 0,
                w > 0,
                grid_wf(v@, w as int, h as int),
                0 <= rb < quarter_h,
                row == 4 * rb,
                0 <= cb <= half_w,
                chars@.len() == rb * half_w + cb,
                forall|i: int|
                    0 <= i < chars@.len() ==> (#[trigger] chars@[i]) as u32 == glyph_code(
                        block_dots(v@, 2 * (i % (half_w as int)), 4 * (i / (half_w as int)))),
            decreases half_w - cb,
        {
            let col: usize = 2 * cb;
            assert(2 * (w / 2) == w);
            assert(4 * (h / 4) == h);
            assert(col + 1 < w);
            assert(row + 3 < h);
            let tile: [[bool; 4]; 2] = [
                [v[col][row], v[col][row + 1], v[col][row + 2], v[col][row + 3]],
                [v[col + 1][row], v[col + 1][row + 1], v[col + 1][row + 2], v[col + 1][row + 3]],
            ];
            let glyph = into_braille(tile);
            assert(tile_dots(tile) =~= block_dots(v@, 2 * cb as int, 4 * rb as int));
            proof {
                let i0: int = rb as int * half_w as int + cb as int;
                vstd::arithmetic::div_mod::lemma_fundamental_div_mod_converse(
                    i0,
                    half_w as int,
                    rb as int,
                    cb as int,
                );
            }
            chars.push(glyph);
            cb = cb + 1;
        }
        let ghost prev: int = rb as int;
        rb = rb + 1;
        assert((prev + 1) * half_w == prev * half_w + half_w) by (nonlinear_arith);
    }
    assert forall|rb2: int, cb2: int|
        0 <= rb2 < quarter_h && 0 <= cb2 < half_w implies (#[trigger] chars@[rb2 * (half_w as int)
        + cb2]) as u32 == glyph_code(block_dots(v@, 2 * cb2, 4 * rb2)) by {
        let i0: int = rb2 * (half_w as int) + cb2;
        assert(0 <= rb2 * (half_w as int) + cb2 < (quarter_h as int) * (half_w as int))
            by (nonlinear_arith)
            requires
                0 <= rb2 < quarter_h as int,
                0 <= cb2 < half_w as int,
        ;
        vstd::arithmetic::div_mod::lemma_fundamental_div_mod_converse(
            i0,
            half_w as int,
            rb2,
            cb2,
        );
    }
    chars
}

} // verus!
