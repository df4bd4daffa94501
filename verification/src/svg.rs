//! The vector form of a barcode: an SVG document that draws one rectangle
//! for each bar module.

use vstd::prelude::*;
use barcoders::generators::svg::SVG;
use crate::error::BarcodeError;
use crate::json::decimal;
use crate::symbology::ModuleTrain;

verus! {

/// The text of one rectangle, `width` wide and `height` high, with its left
/// edge at `x`, its top edge at 0 and the fill colour `fill` in hexadecimal.
pub open spec fn rect_text(x: nat, width: nat, height: nat, fill: Seq<char>) -> Seq<char> {
    "<rect x=\""@ + decimal(x) + "\" y=\"0\" width=\""@ + decimal(width) + "\" height=\""@
        + decimal(height) + "\" fill=\"#"@ + fill + "\"/>"@
}

/// The rectangles of the bars of `modules`, from left to right: for every
/// module that is 1 a black rectangle one module wide at the module's place,
/// and nothing for any other module.
pub open spec fn bars_text(modules: Seq<u8>, height: nat, xdim: nat) -> Seq<char>
    decreases modules.len(),
{
    if modules.len() == 0 {
        Seq::empty()
    } else if modules.last() == 1 {
        bars_text(modules.drop_last(), height, xdim) + rect_text(
            ((modules.len() - 1) * xdim) as nat,
            xdim,
            height,
            "000000"@,
        )
    } else {
        bars_text(modules.drop_last(), height, xdim)
    }
}

/// The SVG document of `modules`: a view box as wide as all modules and as
/// high as `height`, a white rectangle over all of it, and the bars.
pub open spec fn svg_text(modules: Seq<u8>, height: nat, xdim: nat) -> Seq<char> {
    "<svg version=\"1.1\" viewBox=\"0 0 "@ + decimal(modules.len() * xdim) + " "@ + decimal(height)
        + "\">"@ + rect_text(0, modules.len() * xdim, height, "ffffff"@) + bars_text(
        modules,
        height,
        xdim,
    ) + "</svg>"@
}

/// `SVG::generate` of `barcoders`, for the generator that `SVG::new(height)`
/// makes and `xdim` changes: black on white, both opaque, no XML namespace.
/// It always succeeds and writes the `svg` element with its view box, a
/// background rectangle over the whole width, and one rectangle for every
/// module that is 1. Widths and offsets are computed in `u32`.
#[verifier::external_body]
fn svg_generate(height: u32, xdim: u32, modules: &Vec<u8>) -> (r: Option<String>)
    requires
        modules@.len() * xdim <= u32::MAX,
        modules@.len() <= u32::MAX,
    ensures
        r is Some,
        r matches Some(s) ==> s@ == svg_text(modules@, height as nat, xdim as nat),
{
    SVG::new(height).xdim(xdim).generate(modules).ok()
}

/// Renders a train as an SVG document, `height` units high and `xdim` units
/// wide for each module.
///
/// The format error comes if and only if the total width does not fit in 32
/// bits.
pub fn render_svg(train: &ModuleTrain, height: u32, xdim: u32) -> (r: Result<String, BarcodeError>)
    ensures
        match r {
            Ok(s) => train@.len() * xdim <= u32::MAX && s@ == svg_text(
                train@,
                height as nat,
                xdim as nat,
            ),
            Err(e) => e == BarcodeError::Format && train@.len() * xdim > u32::MAX,
        },
{
    let modules = train.modules();
    proof {
        assert(modules@.len() * xdim <= 3353 * 0xffff_ffff) by (nonlinear_arith)
            requires
                modules@.len() <= 3353,
                xdim <= 0xffff_ffff,
        ;
    }
    let width: u64 = (modules.len() as u64) * (xdim as u64);
    if width > 0xffff_ffff {
        return Err(BarcodeError::Format);
    }
    match svg_generate(height, xdim, modules) {
        Some(s) => Ok(s),
        None => Err(BarcodeError::Format),
    }
}

} // verus!
