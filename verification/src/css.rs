//! The one outside call of the library: parsing a CSS/web color string.

use vstd::prelude::*;

use crate::color::Color;
use crate::fx::{div_tr, lemma_tdiv_le2, tdiv};

verus! {

/// What parsing a CSS color string yields: `None` for a malformed string,
/// otherwise the color quantized to 16-bit RGBA channels.  Parsing is a
/// pure function of the characters alone, so the result carries a name.
pub uninterp spec fn css_rgba16(s: Seq<char>) -> Option<(u16, u16, u16, u16)>;

/// Relies on csscolorparser::parse for the CSS color grammar (named
/// colors, hex, rgb()/rgba(), hsl()/hsla(), hwb(), hsv()), and on
/// csscolorparser::Color::to_rgba16 to quantize the parsed color;
/// both depend on the string alone.
#[verifier::external_body]
fn parse_css(s: &str) -> (r: Option<(u16, u16, u16, u16)>)
    ensures
        r == css_rgba16(s@),
{
    match csscolorparser::parse(s) {
        Ok(c) => {
            let [r, g, b, a] = c.to_rgba16();
            Some((r, g, b, a))
        },
        Err(_) => None,
    }
}

/// A 16-bit RGBA quadruple brought into the fixed-point channel scale.
pub open spec fn color_of_rgba16(t: (u16, u16, u16, u16)) -> Color {
    Color {
        r: tdiv(t.0 as int * 1_000_000, 65_535) as i64,
        g: tdiv(t.1 as int * 1_000_000, 65_535) as i64,
        b: tdiv(t.2 as int * 1_000_000, 65_535) as i64,
        a: tdiv(t.3 as int * 1_000_000, 65_535) as i64,
    }
}

/// Build a color from 16-bit RGBA channels.
pub fn from_rgba16(t: (u16, u16, u16, u16)) -> (c: Color)
    ensures
        c == color_of_rgba16(t),
        c.wf(),
{
    proof {
        lemma_tdiv_le2((t.0 as int) * 1_000_000, 65_535, 1_000_000int);
        lemma_tdiv_le2((t.1 as int) * 1_000_000, 65_535, 1_000_000int);
        lemma_tdiv_le2((t.2 as int) * 1_000_000, 65_535, 1_000_000int);
        lemma_tdiv_le2((t.3 as int) * 1_000_000, 65_535, 1_000_000int);
    }
    Color {
        r: div_tr((t.0 as i128) * 1_000_000, 65_535) as i64,
        g: div_tr((t.1 as i128) * 1_000_000, 65_535) as i64,
        b: div_tr((t.2 as i128) * 1_000_000, 65_535) as i64,
        a: div_tr((t.3 as i128) * 1_000_000, 65_535) as i64,
    }
}

/// Parse one CSS color string into a fixed-point color, `None` for a
/// malformed string.
pub fn parse_css_color(s: &str) -> (r: Option<Color>)
    ensures
        match css_rgba16(s@) {
            Some(t) => r == Some(color_of_rgba16(t)),
            None => r is None,
        },
        r is Some ==> r->0.wf(),
{
    match parse_css(s) {
        Some(t) => Some(from_rgba16(t)),
        None => None,
    }
}

} // verus!
