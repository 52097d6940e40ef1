//! RGB pixel colors for the shaded screen buffer.

use vstd::prelude::*;

verus! {

/// An RGB color with 8-bit channels. The all-zero color is "unlit":
/// the glyph encoder treats any other value as a lit dot.
#[derive(Clone, Copy, Debug, PartialEq, Eq, Structural)]
pub struct Color(pub u8, pub u8, pub u8);

/// Whether a pixel of this color counts as a lit Braille dot.
pub open spec fn lit(c: Color) -> bool {
    c.0 != 0 || c.1 != 0 || c.2 != 0
}

/// The channel-wise mean of eight dot colors, truncated, as the
/// single foreground color of one glyph.
pub open spec fn mean_color(d: Seq<Color>) -> Color
    recommends
        d.len() == 8,
{
    Color(
        (((d[0].0 + d[1].0 + d[2].0 + d[3].0 + d[4].0 + d[5].0 + d[6].0 + d[7].0) as int
            / 8) as u8),
        (((d[0].1 + d[1].1 + d[2].1 + d[3].1 + d[4].1 + d[5].1 + d[6].1 + d[7].1) as int
            / 8) as u8),
        (((d[0].2 + d[1].2 + d[2].2 + d[3].2 + d[4].2 + d[5].2 + d[6].2 + d[7].2) as int
            / 8) as u8),
    )
}

} // verus!
