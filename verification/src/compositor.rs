//! The text compositor: an estimate of how wide a caption is, and the place
//! that centres it on a canvas.
//!
//! Widths are counted in tenths of a pixel, so that every advance of the
//! classification table is a whole number.

use vstd::prelude::*;
use crate::text::chars_of;

verus! {

/// The space that separates a caption from the band above it, in pixels.
pub const TEXT_PADDING: u32 = 10;

/// The advance of a wide character, in tenths of a pixel.
pub const WIDE_ADVANCE: u32 = 165;

/// The advance of one of the narrow letters, in tenths of a pixel.
pub const NARROW_ADVANCE: u32 = 88;

/// The advance of a space, in tenths of a pixel.
pub const SPACE_ADVANCE: u32 = 66;

/// The advance of a parenthesis, in tenths of a pixel.
pub const PAREN_ADVANCE: u32 = 77;

/// The advance of any other character, in tenths of a pixel.
pub const STANDARD_ADVANCE: u32 = 121;

/// What `char::is_uppercase` returns for `c`: whether the character has the
/// Unicode property `Uppercase`.
pub uninterp spec fn has_uppercase_property(c: char) -> bool;

/// Whether `c` is an upper-case character: spelled out for ASCII, where the
/// upper-case characters are the letters `A` to `Z`, and the Unicode
/// property for every other character.
pub open spec fn is_upper_case(c: char) -> bool {
    if c <= '\u{7f}' {
        'A' <= c <= 'Z'
    } else {
        has_uppercase_property(c)
    }
}

/// `char::is_uppercase` tells whether a character has the Unicode property
/// `Uppercase`, which depends on the character alone. Of the ASCII
/// characters exactly the letters `A` to `Z` have it.
pub assume_specification[ char::is_uppercase ](c: char) -> (b: bool)
    ensures
        b == has_uppercase_property(c),
        c <= '\u{7f}' ==> b == ('A' <= c <= 'Z'),
;

/// The narrow lower-case letters.
pub open spec fn is_narrow(c: char) -> bool {
    c == 'i' || c == 'l' || c == 'j' || c == 't' || c == 'f'
}

/// The advance, in tenths of a pixel, of the character `c`, given whether
/// it is upper case: wide for an upper-case character and for `W` and `M`,
/// narrow for the narrow letters, narrower still for a space, a width of
/// their own for parentheses, and the standard width for anything else.
pub open spec fn advance_given(c: char, upper_case: bool) -> nat {
    if upper_case || c == 'W' || c == 'M' {
        WIDE_ADVANCE as nat
    } else if is_narrow(c) {
        NARROW_ADVANCE as nat
    } else if c == ' ' {
        SPACE_ADVANCE as nat
    } else if c == '(' || c == ')' {
        PAREN_ADVANCE as nat
    } else {
        STANDARD_ADVANCE as nat
    }
}

/// The advance of one character in tenths of a pixel.
pub open spec fn advance_tenths(c: char) -> nat {
    advance_given(c, is_upper_case(c))
}

/// The estimated width of a caption in tenths of a pixel: the sum of the
/// advances of its characters.
pub open spec fn width_tenths(s: Seq<char>) -> nat
    decreases s.len(),
{
    if s.len() == 0 {
        0
    } else {
        width_tenths(s.drop_last()) + advance_tenths(s.last())
    }
}

/// The left edge, in pixels, that centres a caption on a canvas of the given
/// width: half of what the caption leaves free, rounded down, and 0 where
/// the caption is wider than the canvas.
pub open spec fn centered_x(canvas_width: nat, s: Seq<char>) -> nat {
    if 10 * canvas_width <= width_tenths(s) {
        0
    } else {
        ((10 * canvas_width - width_tenths(s)) / 20) as nat
    }
}

/// Where a caption is drawn: the left and the top edge of its text, in
/// pixels from the canvas's top left corner.
#[derive(Debug, Clone, Copy, PartialEq, Eq, Structural)]
pub struct Placement {
    pub x: i64,
    pub y: i64,
}

/// The advance, in tenths of a pixel, of a character of which it is known
/// whether it is upper case.
pub fn advance_of(c: char, upper_case: bool) -> (r: u32)
    ensures
        r == advance_given(c, upper_case),
{
    if upper_case || c == 'W' || c == 'M' {
        WIDE_ADVANCE
    } else if c == 'i' || c == 'l' || c == 'j' || c == 't' || c == 'f' {
        NARROW_ADVANCE
    } else if c == ' ' {
        SPACE_ADVANCE
    } else if c == '(' || c == ')' {
        PAREN_ADVANCE
    } else {
        STANDARD_ADVANCE
    }
}

/// The advance of one character in tenths of a pixel.
pub fn advance(c: char) -> (r: u32)
    ensures
        r == advance_tenths(c),
{
    advance_of(c, c.is_uppercase())
}

proof fn lemma_width_bound(s: Seq<char>)
    ensures
        width_tenths(s) <= 165 * s.len(),
    decreases s.len(),
{
    if s.len() > 0 {
        lemma_width_bound(s.drop_last());
    }
}

/// Estimates the width of a caption, in tenths of a pixel.
pub fn estimate_width(caption: &str) -> (r: u128)
    ensures
        r == width_tenths(caption@),
{
    let v = chars_of(caption);
    let mut total: u128 = 0;
    let mut i: usize = 0;
    while i < v.len()
        invariant
            i <= v.len(),
            total == width_tenths(v@.take(i as int)),
        decreases v.len() - i,
    {
        proof {
            assert(v@.take(i as int + 1).drop_last() =~= v@.take(i as int));
            lemma_width_bound(v@.take(i as int));
        }
        total = total + advance(v[i]) as u128;
        i += 1;
    }
    proof {
        assert(v@.take(v.len() as int) =~= v@);
    }
    total
}

/// The left edge that centres a caption on a canvas `canvas_width` pixels
/// wide.
pub fn center(caption: &str, canvas_width: u32) -> (x: u32)
    ensures
        x == centered_x(canvas_width as nat, caption@),
{
    let width = estimate_width(caption);
    let room: u128 = 10 * (canvas_width as u128);
    if room <= width {
        0
    } else {
        ((room - width) / 20) as u32
    }
}

/// Places a caption in a band that begins `band_top` pixels from the top:
/// centred, and `TEXT_PADDING` pixels below the band's top edge.
pub fn place(caption: &str, canvas_width: u32, band_top: u32) -> (r: Placement)
    ensures
        r.x == centered_x(canvas_width as nat, caption@),
        r.y == band_top + TEXT_PADDING,
{
    Placement { x: center(caption, canvas_width) as i64, y: band_top as i64 + TEXT_PADDING as i64 }
}

/// Places a caption centred, with its top edge `top` pixels from the top.
pub fn place_at(caption: &str, canvas_width: u32, top: u32) -> (r: Placement)
    ensures
        r.x == centered_x(canvas_width as nat, caption@),
        r.y == top,
{
    Placement { x: center(caption, canvas_width) as i64, y: top as i64 }
}

} // verus!
