//! The viewport: a drawable area of the terminal with an origin
//! offset, and the encoder that turns a color screen buffer into
//! positioned, colored Braille glyph lines.

use crate::braille;
use crate::braille::glyph_code;
use crate::color::lit;
use crate::color::mean_color;
use crate::color::Color;
use vstd::prelude::*;

verus! {

/// A color pixel grid held as columns: `g[x][y]` is the pixel at
/// column `x`, row `y`. Every column has the same height.
pub open spec fn color_grid_wf(g: Seq<Vec<Color>>, w: int, h: int) -> bool {
    &&& g.len() == w
    &&& forall|x: int| 0 <= x < w ==> (#[trigger] g[x])@.len() == h
}

/// The colors of the 2x4 block of `g` whose bottom-left pixel is
/// `(col, row)`, in standard Braille bit order, reading rows upward.
pub open spec fn color_block_dots_up(g: Seq<Vec<Color>>, col: int, row: int) -> Seq<Color> {
    seq![
        g[col]@[row],
        g[col]@[row - 1],
        g[col]@[row - 2],
        g[col + 1]@[row],
        g[col + 1]@[row - 1],
        g[col + 1]@[row - 2],
        g[col]@[row - 3],
        g[col + 1]@[row - 3],
    ]
}

/// The colors of a 2x4 tile (`tile[column][row]`, rows top to
/// bottom), in standard Braille bit order.
pub open spec fn color_tile_dots(tile: [[Color; 4]; 2]) -> Seq<Color> {
    seq![
        tile[0][0],
        tile[0][1],
        tile[0][2],
        tile[1][0],
        tile[1][1],
        tile[1][2],
        tile[0][3],
        tile[1][3],
    ]
}

/// Which dots of a color block are lit: any color other than black.
pub open spec fn lit_dots(d: Seq<Color>) -> Seq<bool> {
    d.map_values(|c: Color| lit(c))
}

/// One glyph of encoded output: the mean foreground color of its
/// eight dots and the Braille character itself.
pub struct GlyphCell {
    pub color: Color,
    pub glyph: char,
}

/// One terminal line of encoded output: the cell position to move
/// the cursor to, then the glyphs to print left to right.
pub struct GlyphLine {
    pub x: u16,
    pub y: u16,
    pub cells: Vec<GlyphCell>,
}

/// The drawable screen area: a pixel size and a terminal-cell origin
/// offset. Purely a placement and encoding concern.
pub struct Viewport {
    size: (u16, u16),
    origin: (u16, u16),
}

impl Viewport {
    /// The stored pixel size, for contracts.
    pub closed spec fn spec_size(&self) -> (u16, u16) {
        self.size
    }

    /// The stored terminal-cell origin, for contracts.
    pub closed spec fn spec_origin(&self) -> (u16, u16) {
        self.origin
    }

    /// Builds the viewport of `w x h` terminal cells whose top-left
    /// cell is `(x0, y0)`, at two pixel columns and four pixel rows
    /// per cell.
    pub fn with_size_and_pos(w: u16, h: u16, x0: u16, y0: u16) -> (v: Viewport)
        requires
            w <= 0x3FFF,
            h <= 0x1FFF,
        ensures
            v.spec_size().0 == w * 2,
            v.spec_size().1 == h * 4,
            v.spec_origin() == (x0, y0),
    {
        Viewport { size: (w * 2, h * 4), origin: (x0, y0) }
    }

    /// Builds the viewport that covers a whole terminal of
    /// `cols x rows` character cells, with its origin at the top-left
    /// corner.
    pub fn from_screen_size(cols: u16, rows: u16) -> (v: Viewport)
        requires
            cols <= 0x3FFF,
            rows <= 0x1FFF,
        ensures
            v.spec_size().0 == cols * 2,
            v.spec_size().1 == rows * 4,
            v.spec_origin() == (0u16, 0u16),
    {
        Viewport { size: (cols * 2, rows * 4), origin: (0, 0) }
    }

    /// The viewport size in pixels: `(width, height)`.
    pub fn size(&self) -> (size: (u16, u16))
        ensures
            size == self.spec_size(),
    {
        self.size
    }

    /// Encodes one 2x4 tile of color pixels as a Braille glyph: a dot
    /// is lit exactly when its color is not black.
    pub fn into_braille(tile: [[Color; 4]; 2]) -> (c: char)
        ensures
            c as u32 == glyph_code(lit_dots(color_tile_dots(tile))),
    {
        let dots: [bool; 8] = [
            lit_exec(tile[0][0]),
            lit_exec(tile[0][1]),
            lit_exec(tile[0][2]),
            lit_exec(tile[1][0]),
            lit_exec(tile[1][1]),
            lit_exec(tile[1][2]),
            lit_exec(tile[0][3]),
            lit_exec(tile[1][3]),
        ];
        let c = braille::encode_glyph(dots);
        assert(dots@ =~= lit_dots(color_tile_dots(tile)));
        c
    }

    /// The channel-wise mean of a tile's eight dot colors, truncated:
    /// the single foreground color for the tile's glyph.
    pub fn average_color(tile: [[Color; 4]; 2]) -> (c: Color)
        ensures
            c == mean_color(color_tile_dots(tile)),
    {
        let mut sum_r: u32 = 0;
        let mut sum_g: u32 = 0;
        let mut sum_b: u32 = 0;
        sum_r = sum_r + tile[0][0].0 as u32 + tile[0][1].0 as u32 + tile[0][2].0 as u32
            + tile[1][0].0 as u32 + tile[1][1].0 as u32 + tile[1][2].0 as u32 + tile[0][3].0 as u32
            + tile[1][3].0 as u32;
        sum_g = sum_g + tile[0][0].1 as u32 + tile[0][1].1 as u32 + tile[0][2].1 as u32
            + tile[1][0].1 as u32 + tile[1][1].1 as u32 + tile[1][2].1 as u32 + tile[0][3].1 as u32
            + tile[1][3].1 as u32;
        sum_b = sum_b + tile[0][0].2 as u32 + tile[0][1].2 as u32 + tile[0][2].2 as u32
            + tile[1][0].2 as u32 + tile[1][1].2 as u32 + tile[1][2].2 as u32 + tile[0][3].2 as u32
            + tile[1][3].2 as u32;
        Color((sum_r / 8) as u8, (sum_g / 8) as u8, (sum_b / 8) as u8)
    }

    /// Encodes the color screen buffer as positioned glyph lines: one
    /// line per 4-row block, scanned from the bottom of the buffer
    /// upward, each line placed at the origin offset plus its index,
    /// each glyph carrying the mean color of its eight dots.
    pub fn draw_chars(&self, v: &Vec<Vec<Color>>) -> (lines: Vec<GlyphLine>)
        requires
            v@.len() > 0,
            v@.len() % 2 == 0,
            color_grid_wf(v@, v@.len() as int, v@[0]@.len() as int),
            v@[0]@.len() % 4 == 0,
            v@[0]@.len() > 0,
            self.spec_origin().1 + v@[0]@.len() / 4 <= u16::MAX,
        ensures
            lines@.len() == v@[0]@.len() / 4,
            forall|rb: int|
                0 <= rb < v@[0]@.len() / 4 ==> {
                    let line = #[trigger] lines@[rb];
                    &&& line.x == self.spec_origin().0
                    &&& line.y == self.spec_origin().1 + rb
                    &&& line.cells@.len() == v@.len() / 2
                },
            forall|rb: int, cb: int|
                0 <= rb < v@[0]@.len() / 4 && 0 <= cb < v@.len() / 2 ==> {
                    let cell = #[trigger] lines@[rb].cells@[cb];
                    let dots = color_block_dots_up(v@, 2 * cb, v@[0]@.len() - 1 - 4 * rb);
                    &&& cell.glyph as u32 == glyph_code(lit_dots(dots))
                    &&& cell.color == mean_color(dots)
                },
    {
        let w: usize = v.len();
        let h: usize = v[0].len();
        let half_w: usize = w / 2;
        let quarter_h: usize = h / 4;
        let x0: u16 = self.origin.0;
        let y0: u16 = self.origin.1;
        let mut lines: Vec<GlyphLine> = Vec::new();
        let mut rb: usize = 0;
        while rb < quarter_h
            invariant
                w == v@.len(),
                h == v@[0]@.len(),
                half_w == w / 2,
                quarter_h == h / 4,
                w % 2 == 0,
                h % 4 == 0,
                w > 0,
                h > 0,
                color_grid_wf(v@, w as int, h as int),
                x0 == self.spec_origin().0,
                y0 == self.spec_origin().1,
                y0 + quarter_h <= u16::MAX,
                0 <= rb <= quarter_h,
                lines@.len() == rb,
                forall|i: int|
                    0 <= i < rb ==> {
                        let line = #[trigger] lines@[i];
                        &&& line.x == x0
                        &&& line.y == y0 + i
                        &&& line.cells@.len() == half_w
                    },
                forall|i: int, cb: int|
                    0 <= i < rb && 0 <= cb < half_w ==> {
                        let cell = #[trigger] lines@[i].cells@[cb];
                        let dots = color_block_dots_up(v@, 2 * cb, h - 1 - 4 * i);
                        &&& cell.glyph as u32 == glyph_code(lit_dots(dots))
                        &&& cell.color == mean_color(dots)
                    },
            decreases quarter_h - rb,
        {
            assert(4 * (h / 4) == h);
            let row: usize = h - 1 - 4 * rb;
            let mut cells: Vec<GlyphCell> = Vec::new();
            let mut cb: usize = 0;
            while cb < half_w
                invariant
                    w == v@.len(),
                    h == v@[0]@.len(),
                    half_w == w / 2,
                    quarter_h == h / 4,
                    w % 2 == 0,
                    h % 4 == 0,
                    w > 0,
                    h > 0,
                    color_grid_wf(v@, w as int, h as int),
                    0 <= rb < quarter_h,
                    row == h - 1 - 4 * rb,
                    row >= 3,
                    0 <= cb <= half_w,
                    cells@.len() == cb,
                    forall|c: int|
                        0 <= c < cb ==> {
                            let cell = #[trigger] cells@[c];
                            let dots = color_block_dots_up(v@, 2 * c, row as int);
                            &&& cell.glyph as u32 == glyph_code(lit_dots(dots))
                            &&& cell.color == mean_color(dots)
                        },
                decreases half_w - cb,
            {
                let col: usize = 2 * cb;
                assert(2 * (w / 2) == w);
                assert(col + 1 < w);
                let tile: [[Color; 4]; 2] = [
                    [v[col][row], v[col][row - 1], v[col][row - 2], v[col][row - 3]],
                    [
                        v[col + 1][row],
                        v[col + 1][row - 1],
                        v[col + 1][row - 2],
                        v[col + 1][row - 3],
                    ],
                ];
                let glyph = Self::into_braille(tile);
                let color = Self::average_color(tile);
                assert(color_tile_dots(tile) =~= color_block_dots_up(
                    v@,
                    2 * cb as int,
                    row as int,
                ));
                cells.push(GlyphCell { color, glyph });
                cb = cb + 1;
            }
            lines.push(GlyphLine { x: x0, y: y0 + rb as u16, cells });
            rb = rb + 1;
        }
        lines
    }
}

/// Whether a color counts as a lit Braille dot: any channel nonzero.
fn lit_exec(c: Color) -> (b: bool)
    ensures
        b == lit(c),
{
    c.0 != 0 || c.1 != 0 || c.2 != 0
}

} // verus!
