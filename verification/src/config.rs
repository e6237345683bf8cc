//! The engine's immutable configuration: the sixteen-color palette, default
//! foreground and background, font sizing used for style computation, stroke
//! widths, scrollback and column limits, and the two blink periods.

use vstd::prelude::*;

use crate::color::Rgba;

verus! {

/// Palette and limits, supplied once at engine construction.
///
/// Font sizes and stroke widths are in tenths of a point; blink periods are
/// in milliseconds, where a period of zero disables that blink class.
#[derive(Clone, Copy, Debug, PartialEq, Eq, Structural)]
pub struct Config {
    pub font_size: u32,
    pub subscript_font_size: u32,
    pub superscript_font_size: u32,

    pub max_lines: usize,
    pub max_columns: usize,

    pub expand_bg: u32,

    pub strike_through_width: u32,
    pub underline_width: u32,
    pub double_underline_width: u32,

    pub slow_blink_period: u64,
    pub fast_blink_period: u64,

    pub fg_default: Rgba,
    pub bg_default: Rgba,

    pub black: Rgba,
    pub red: Rgba,
    pub green: Rgba,
    pub yellow: Rgba,
    pub blue: Rgba,
    pub magenta: Rgba,
    pub cyan: Rgba,
    pub white: Rgba,

    pub bright_black: Rgba,
    pub bright_red: Rgba,
    pub bright_green: Rgba,
    pub bright_yellow: Rgba,
    pub bright_blue: Rgba,
    pub bright_magenta: Rgba,
    pub bright_cyan: Rgba,
    pub bright_white: Rgba,
}

impl Config {
    /// The limits a buffer relies on: at least one line of scrollback and one
    /// column must be allowed, and the line cap must leave room for the one
    /// transient line an insertion can add before eviction runs.
    pub open spec fn wf(self) -> bool {
        &&& self.max_lines >= 1
        &&& self.max_lines < usize::MAX
        &&& self.max_columns >= 1
        &&& self.max_columns < usize::MAX
    }

    /// Runtime check of [`Config::wf`], for callers outside verified code.
    pub fn is_wf(&self) -> (b: bool)
        ensures
            b == self.wf(),
    {
        self.max_lines >= 1 && self.max_lines < usize::MAX && self.max_columns >= 1
            && self.max_columns < usize::MAX
    }

    /// A dark palette in the style of a conventional terminal scheme.
    pub fn dark() -> (cfg: Config)
        ensures
            cfg.wf(),
            cfg.max_lines == 1000,
            cfg.max_columns == 80,
            cfg == Config::dark_spec(),
    {
        Config {
            font_size: 140,
            subscript_font_size: 100,
            superscript_font_size: 100,

            max_lines: 1000,
            max_columns: 80,

            expand_bg: 0,

            strike_through_width: 10,
            underline_width: 20,
            double_underline_width: 40,

            slow_blink_period: 1000,
            fast_blink_period: 300,

            fg_default: Rgba { r: 0xcc, g: 0xcc, b: 0xcc, a: 255 },
            bg_default: Rgba { r: 0x18, g: 0x18, b: 0x18, a: 255 },

            black: Rgba { r: 0x18, g: 0x18, b: 0x18, a: 255 },
            red: Rgba { r: 0xe7, g: 0x48, b: 0x56, a: 255 },
            green: Rgba { r: 0x16, g: 0xc6, b: 0x0c, a: 255 },
            yellow: Rgba { r: 0xf9, g: 0xf1, b: 0xa5, a: 255 },
            blue: Rgba { r: 0x3b, g: 0x78, b: 0xff, a: 255 },
            magenta: Rgba { r: 0xb4, g: 0x00, b: 0x9e, a: 255 },
            cyan: Rgba { r: 0x61, g: 0xd6, b: 0xd6, a: 255 },
            white: Rgba { r: 0xcc, g: 0xcc, b: 0xcc, a: 255 },

            bright_black: Rgba { r: 0x66, g: 0x66, b: 0x66, a: 255 },
            bright_red: Rgba { r: 0xc5, g: 0x0f, b: 0x1f, a: 255 },
            bright_green: Rgba { r: 0x13, g: 0xa1, b: 0x0e, a: 255 },
            bright_yellow: Rgba { r: 0xc1, g: 0x9c, b: 0x00, a: 255 },
            bright_blue: Rgba { r: 0x00, g: 0x37, b: 0xda, a: 255 },
            bright_magenta: Rgba { r: 0x88, g: 0x17, b: 0x98, a: 255 },
            bright_cyan: Rgba { r: 0x3a, g: 0x96, b: 0xdd, a: 255 },
            bright_white: Rgba { r: 0xf2, g: 0xf2, b: 0xf2, a: 255 },
        }
    }

    pub open spec fn dark_spec() -> Config {
        Config {
            font_size: 140,
            subscript_font_size: 100,
            superscript_font_size: 100,

            max_lines: 1000,
            max_columns: 80,

            expand_bg: 0,

            strike_through_width: 10,
            underline_width: 20,
            double_underline_width: 40,

            slow_blink_period: 1000,
            fast_blink_period: 300,

            fg_default: Rgba { r: 0xcc, g: 0xcc, b: 0xcc, a: 255 },
            bg_default: Rgba { r: 0x18, g: 0x18, b: 0x18, a: 255 },

            black: Rgba { r: 0x18, g: 0x18, b: 0x18, a: 255 },
            red: Rgba { r: 0xe7, g: 0x48, b: 0x56, a: 255 },
            green: Rgba { r: 0x16, g: 0xc6, b: 0x0c, a: 255 },
            yellow: Rgba { r: 0xf9, g: 0xf1, b: 0xa5, a: 255 },
            blue: Rgba { r: 0x3b, g: 0x78, b: 0xff, a: 255 },
            magenta: Rgba { r: 0xb4, g: 0x00, b: 0x9e, a: 255 },
            cyan: Rgba { r: 0x61, g: 0xd6, b: 0xd6, a: 255 },
            white: Rgba { r: 0xcc, g: 0xcc, b: 0xcc, a: 255 },

            bright_black: Rgba { r: 0x66, g: 0x66, b: 0x66, a: 255 },
            bright_red: Rgba { r: 0xc5, g: 0x0f, b: 0x1f, a: 255 },
            bright_green: Rgba { r: 0x13, g: 0xa1, b: 0x0e, a: 255 },
            bright_yellow: Rgba { r: 0xc1, g: 0x9c, b: 0x00, a: 255 },
            bright_blue: Rgba { r: 0x00, g: 0x37, b: 0xda, a: 255 },
            bright_magenta: Rgba { r: 0x88, g: 0x17, b: 0x98, a: 255 },
            bright_cyan: Rgba { r: 0x3a, g: 0x96, b: 0xdd, a: 255 },
            bright_white: Rgba { r: 0xf2, g: 0xf2, b: 0xf2, a: 255 },
        }
    }
}

} // verus!
