//! The palette as an SVG document of labelled swatches.
use vstd::prelude::*;

use crate::color::{hex_digit, hex_digit_char, hex_string, HexColor};
use crate::parsers::PalleteParser;

verus! {

/// Vertical distance from one swatch to the next: its height and a gap.
pub const SWATCH_STEP: u128 = 70;

/// Offset of a label's baseline below the top of its swatch.
pub const LABEL_OFFSET: u128 = 37;

/// The decimal digits of `n`, most significant first, without leading zeros.
pub open spec fn decimal(n: nat) -> Seq<char>
    decreases n,
{
    if n < 10 {
        seq![hex_digit_char(n as int)]
    } else {
        decimal(n / 10).push(hex_digit_char((n % 10) as int))
    }
}

fn push_decimal(s: &mut String, n: u128)
    ensures
        final(s)@ == old(s)@ + decimal(n as nat),
    decreases n,
{
    if n >= 10 {
        push_decimal(s, n / 10);
    }
    s.append(hex_digit((n % 10) as u8));
    assert(final(s)@ =~= old(s)@ + decimal(n as nat));
}

/// The opening of the document, for an image `height` units tall.
pub open spec fn svg_header(height: nat) -> Seq<char> {
    "<svg width=\"100\" height=\""@ + decimal(height)
        + "\" xmlns=\"http://www.w3.org/2000/svg\">\n             <style>\n                .label { font-family: sans-serif; font-size: 14px; fill: #000; }\n             </style>\n"@
}

/// The rectangle and the label of the swatch at position `i` for color `c`.
pub open spec fn svg_swatch(i: nat, c: HexColor) -> Seq<char> {
    "<rect x=\"0\" y=\""@ + decimal(i * 70) + "\" width=\"100\" height=\"60\" fill=\""@
        + hex_string(c) + "\" />\n"@ + "<text x=\"5\" y=\""@ + decimal(i * 70 + 37)
        + "\" class=\"label\">"@ + hex_string(c) + "</text>\n"@
}

/// The swatches of all colors of `p`, top to bottom.
pub open spec fn svg_swatches(p: Seq<HexColor>) -> Seq<char>
    decreases p.len(),
{
    if p.len() == 0 {
        Seq::empty()
    } else {
        svg_swatches(p.drop_last()) + svg_swatch((p.len() - 1) as nat, p.last())
    }
}

/// The whole SVG document of palette `p`.
pub open spec fn svg_document(p: Seq<HexColor>) -> Seq<char> {
    svg_header(p.len() * 70) + svg_swatches(p) + "</svg>\n"@
}

/// Writes a palette as an SVG image of stacked swatches.
pub struct SvgParser {}

impl SvgParser {
    /// The SVG document of `pallete`: one 100 by 60 swatch per color, ten
    /// units apart, each labelled with its hexadecimal form.
    pub fn to_svg(pallete: &[HexColor]) -> (r: String)
        ensures
            r@ == svg_document(pallete@),
    {
        let mut svg = String::from_str("<svg width=\"100\" height=\"");
        push_decimal(&mut svg, SWATCH_STEP * pallete.len() as u128);
        svg.append(
            "\" xmlns=\"http://www.w3.org/2000/svg\">\n             <style>\n                .label { font-family: sans-serif; font-size: 14px; fill: #000; }\n             </style>\n",
        );
        proof {
            assert(svg@ == svg_header(pallete@.len() * 70));
        }
        let mut i: usize = 0;
        while i < pallete.len()
            invariant
                0 <= i <= pallete@.len(),
                svg@ == svg_header(pallete@.len() * 70) + svg_swatches(pallete@.take(i as int)),
            decreases pallete@.len() - i,
        {
            let color = pallete[i];
            let ghost before = svg@;
            let hex = color.to_hex_string();
            let y = i as u128 * SWATCH_STEP;
            svg.append("<rect x=\"0\" y=\"");
            push_decimal(&mut svg, y);
            svg.append("\" width=\"100\" height=\"60\" fill=\"");
            svg.append(hex.as_str());
            svg.append("\" />\n");
            svg.append("<text x=\"5\" y=\"");
            push_decimal(&mut svg, y + LABEL_OFFSET);
            svg.append("\" class=\"label\">");
            svg.append(hex.as_str());
            svg.append("</text>\n");
            proof {
                let t = pallete@.take(i as int + 1);
                assert(t.drop_last() =~= pallete@.take(i as int));
                assert(svg@ =~= before + svg_swatch(i as nat, color));
                assert(svg@ =~= svg_header(pallete@.len() * 70) + svg_swatches(t));
            }
            i = i + 1;
        }
        svg.append("</svg>\n");
        proof {
            assert(pallete@.take(i as int) =~= pallete@);
            assert(svg@ =~= svg_document(pallete@));
        }
        svg
    }
}

impl PalleteParser for SvgParser {
    fn render(pallete: &[HexColor]) -> Option<String> {
        Some(SvgParser::to_svg(pallete))
    }
}

} // verus!
