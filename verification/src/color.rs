//! Colors: abstract selectors as they appear in SGR parameters, and concrete
//! RGBA values produced by resolution against a palette.

use vstd::prelude::*;

verus! {

/// A color selector as carried by an SGR parameter: the terminal default,
/// one of the sixteen named palette colors, or an explicit RGB triple.
#[derive(Clone, Copy, Debug, PartialEq, Eq, Structural)]
pub enum Color {
    Default,
    Black,
    Red,
    Green,
    Yellow,
    Blue,
    Magenta,
    Cyan,
    White,
    BrightBlack,
    BrightRed,
    BrightGreen,
    BrightYellow,
    BrightBlue,
    BrightMagenta,
    BrightCyan,
    BrightWhite,
    Rgb(u8, u8, u8),
}

/// A concrete color: non-premultiplied 8-bit RGBA.
#[derive(Clone, Copy, Debug, PartialEq, Eq, Structural)]
pub struct Rgba {
    pub r: u8,
    pub g: u8,
    pub b: u8,
    pub a: u8,
}

/// One RGBA component scaled by 3/2 and clamped: the brightening half of the
/// gamma adjustment applied to colors that have no named bright sibling.
pub open spec fn scale_up_spec(c: u8) -> u8 {
    if 3 * c / 2 > 255 {
        255u8
    } else {
        (3 * c / 2) as u8
    }
}

/// One RGBA component scaled by 1/2: the dimming half of the gamma adjustment.
pub open spec fn scale_down_spec(c: u8) -> u8 {
    (c / 2) as u8
}

impl Rgba {
    /// Fully transparent (used for concealed text).
    pub fn transparent() -> (c: Rgba)
        ensures
            c == Rgba::transparent_spec(),
    {
        Rgba { r: 0, g: 0, b: 0, a: 0 }
    }

    pub open spec fn transparent_spec() -> Rgba {
        Rgba { r: 0, g: 0, b: 0, a: 0 }
    }

    /// An opaque color from its red, green and blue components.
    pub fn opaque(r: u8, g: u8, b: u8) -> (c: Rgba)
        ensures
            c == (Rgba { r, g, b, a: 255u8 }),
    {
        Rgba { r, g, b, a: 255 }
    }

    pub open spec fn scaled_up_spec(self) -> Rgba {
        Rgba {
            r: scale_up_spec(self.r),
            g: scale_up_spec(self.g),
            b: scale_up_spec(self.b),
            a: scale_up_spec(self.a),
        }
    }

    pub open spec fn scaled_down_spec(self) -> Rgba {
        Rgba {
            r: scale_down_spec(self.r),
            g: scale_down_spec(self.g),
            b: scale_down_spec(self.b),
            a: scale_down_spec(self.a),
        }
    }

    /// Multiplies every component by 3/2, clamping at the top of the range:
    /// the adjustment a bold weight applies to a color that is not one of the
    /// eight standard named colors.
    pub fn scaled_up(self) -> (c: Rgba)
        ensures
            c == self.scaled_up_spec(),
    {
        Rgba {
            r: scale_up(self.r),
            g: scale_up(self.g),
            b: scale_up(self.b),
            a: scale_up(self.a),
        }
    }

    /// Multiplies every component by 1/2: the adjustment a faint weight
    /// applies to a color that is not one of the eight bright named colors.
    pub fn scaled_down(self) -> (c: Rgba)
        ensures
            c == self.scaled_down_spec(),
    {
        Rgba {
            r: self.r / 2,
            g: self.g / 2,
            b: self.b / 2,
            a: self.a / 2,
        }
    }
}

fn scale_up(c: u8) -> (r: u8)
    ensures
        r == scale_up_spec(c),
{
    let scaled: u32 = 3 * (c as u32) / 2;
    if scaled > 255 {
        255
    } else {
        scaled as u8
    }
}

} // verus!
