//! The color and style resolver: a pure function from the abstract style
//! state and a palette to a concrete resolved style record.

use vstd::prelude::*;

use crate::color::{Color, Rgba};
use crate::config::Config;
use crate::style::{Blinking, Script, StyleState, Underline, Weight};

verus! {

/// A decoration stroke: a width of zero means the stroke is absent.
#[derive(Clone, Copy, Debug, PartialEq, Eq, Structural)]
pub struct Stroke {
    pub width: u32,
    pub color: Rgba,
}

impl Stroke {
    pub open spec fn none_spec() -> Stroke {
        Stroke { width: 0, color: Rgba::transparent_spec() }
    }

    /// The absent stroke.
    pub fn none() -> (s: Stroke)
        ensures
            s == Stroke::none_spec(),
    {
        Stroke { width: 0, color: Rgba { r: 0, g: 0, b: 0, a: 0 } }
    }
}

/// Vertical alignment of a run within its line.
#[derive(Clone, Copy, Debug, PartialEq, Eq, Structural)]
pub enum Align {
    Center,
    Min,
    Max,
}

/// The fully resolved visual style of a run: everything the renderer needs,
/// derived on demand from [`StyleState`] plus [`Config`] and never stored
/// back into the style state.
#[derive(Clone, Copy, Debug, PartialEq, Eq, Structural)]
pub struct ResolvedStyle {
    pub color: Rgba,
    pub background: Rgba,
    pub proportional: bool,
    pub font_size: u32,
    pub italics: bool,
    pub underline: Stroke,
    pub strikethrough: Stroke,
    pub expand_bg: u32,
    pub extra_letter_spacing: i64,
    pub valign: Align,
    pub blink: Blinking,
}

/// Maps one color selector through the palette. A default selector maps to
/// the palette's white entry as foreground and to its black entry as
/// background — deliberately not to `fg_default`/`bg_default`, preserving the
/// asymmetric defaulting policy the visual output depends on.
pub open spec fn color_convert_spec(color: Color, background: bool, cfg: Config) -> Rgba {
    match color {
        Color::Default => if background {
            cfg.black
        } else {
            cfg.white
        },
        Color::Black => cfg.black,
        Color::Red => cfg.red,
        Color::Green => cfg.green,
        Color::Yellow => cfg.yellow,
        Color::Blue => cfg.blue,
        Color::Magenta => cfg.magenta,
        Color::Cyan => cfg.cyan,
        Color::White => cfg.white,
        Color::BrightBlack => cfg.bright_black,
        Color::BrightRed => cfg.bright_red,
        Color::BrightGreen => cfg.bright_green,
        Color::BrightYellow => cfg.bright_yellow,
        Color::BrightBlue => cfg.bright_blue,
        Color::BrightMagenta => cfg.bright_magenta,
        Color::BrightCyan => cfg.bright_cyan,
        Color::BrightWhite => cfg.bright_white,
        Color::Rgb(r, g, b) => Rgba { r, g, b, a: 255 },
    }
}

/// Half the difference of two sizes, signed: the horizontal spacing that
/// compensates for a script font size in fixed-width mode.
pub open spec fn half_diff_spec(a: u32, b: u32) -> i64 {
    if a >= b {
        (((a - b) as u32 / 2) as i64)
    } else {
        (0i64 - (((b - a) as u32 / 2) as i64)) as i64
    }
}

/// The weight remap of the resolved foreground: the eight standard named
/// colors have bright siblings a bold weight selects, the eight bright named
/// colors have dim siblings a faint weight selects, and any other color is
/// gamma-scaled instead. `sel` is the selector the remap inspects — the
/// background selector when inverted, the foreground selector otherwise.
pub open spec fn weight_remap_spec(color: Rgba, sel: Color, weight: Weight, cfg: Config) -> Rgba {
    match weight {
        Weight::Faint => match sel {
            Color::BrightBlack => cfg.black,
            Color::BrightRed => cfg.red,
            Color::BrightGreen => cfg.green,
            Color::BrightYellow => cfg.yellow,
            Color::BrightBlue => cfg.blue,
            Color::BrightMagenta => cfg.magenta,
            Color::BrightCyan => cfg.cyan,
            Color::BrightWhite => cfg.white,
            _ => color.scaled_down_spec(),
        },
        Weight::Normal => color,
        Weight::Bold => match sel {
            Color::Black => cfg.bright_black,
            Color::Red => cfg.bright_red,
            Color::Green => cfg.bright_green,
            Color::Yellow => cfg.bright_yellow,
            Color::Blue => cfg.bright_blue,
            Color::Magenta => cfg.bright_magenta,
            Color::Cyan => cfg.bright_cyan,
            Color::White => cfg.bright_white,
            _ => color.scaled_up_spec(),
        },
    }
}

/// The whole resolution pipeline, in strict order: palette mapping, invert
/// swap, weight remap, conceal, underline color, script sizing and spacing,
/// and the blink tag. Time-independent and side-effect-free.
pub open spec fn resolve_spec(s: StyleState, cfg: Config) -> ResolvedStyle {
    let fg_mapped = color_convert_spec(s.fg, false, cfg);
    let bg_mapped = color_convert_spec(s.bg, true, cfg);
    let color_swapped = if s.invert_fg_bg {
        bg_mapped
    } else {
        fg_mapped
    };
    let background = if s.invert_fg_bg {
        fg_mapped
    } else {
        bg_mapped
    };
    let sel = if s.invert_fg_bg {
        s.bg
    } else {
        s.fg
    };
    let color_weighted = weight_remap_spec(color_swapped, sel, s.weight, cfg);
    let color = if s.conceal {
        Rgba::transparent_spec()
    } else {
        color_weighted
    };
    let underline_color = match s.underline_color {
        Some(c) => color_convert_spec(c, false, cfg),
        None => color,
    };
    let font_size = match s.script {
        Script::Baseline => cfg.font_size,
        Script::Super => cfg.superscript_font_size,
        Script::Sub => cfg.subscript_font_size,
    };
    ResolvedStyle {
        color,
        background,
        proportional: s.proportional,
        font_size,
        italics: s.italic,
        underline: match s.underline {
            Underline::Off => Stroke::none_spec(),
            Underline::Single => Stroke { width: cfg.underline_width, color: underline_color },
            Underline::Double => Stroke {
                width: cfg.double_underline_width,
                color: underline_color,
            },
        },
        strikethrough: if s.strike_through {
            Stroke { width: cfg.strike_through_width, color }
        } else {
            Stroke::none_spec()
        },
        expand_bg: cfg.expand_bg,
        extra_letter_spacing: if !s.proportional {
            half_diff_spec(cfg.font_size, font_size)
        } else {
            0
        },
        valign: match s.script {
            Script::Baseline => Align::Center,
            Script::Super => Align::Min,
            Script::Sub => Align::Max,
        },
        blink: s.blinking,
    }
}

fn color_convert(color: Color, background: bool, cfg: &Config) -> (r: Rgba)
    ensures
        r == color_convert_spec(color, background, *cfg),
{
    match color {
        Color::Default => if background {
            cfg.black
        } else {
            cfg.white
        },
        Color::Black => cfg.black,
        Color::Red => cfg.red,
        Color::Green => cfg.green,
        Color::Yellow => cfg.yellow,
        Color::Blue => cfg.blue,
        Color::Magenta => cfg.magenta,
        Color::Cyan => cfg.cyan,
        Color::White => cfg.white,
        Color::BrightBlack => cfg.bright_black,
        Color::BrightRed => cfg.bright_red,
        Color::BrightGreen => cfg.bright_green,
        Color::BrightYellow => cfg.bright_yellow,
        Color::BrightBlue => cfg.bright_blue,
        Color::BrightMagenta => cfg.bright_magenta,
        Color::BrightCyan => cfg.bright_cyan,
        Color::BrightWhite => cfg.bright_white,
        Color::Rgb(r, g, b) => Rgba { r, g, b, a: 255 },
    }
}

fn half_diff(a: u32, b: u32) -> (r: i64)
    ensures
        r == half_diff_spec(a, b),
{
    if a >= b {
        ((a - b) / 2) as i64
    } else {
        0i64 - (((b - a) / 2) as i64)
    }
}

impl StyleState {
    /// Resolves the pen against a palette. Pure: equal pens and palettes
    /// always resolve to the equal style, so the result is cacheable per
    /// style state.
    #[verifier::rlimit(50)]
    pub fn resolve(&self, cfg: &Config) -> (r: ResolvedStyle)
        ensures
            r == resolve_spec(*self, *cfg),
    {
        let mut color = color_convert(self.fg, false, cfg);
        let mut background = color_convert(self.bg, true, cfg);

        if self.invert_fg_bg {
            let swap = color;
            color = background;
            background = swap;
        }

        let sel = if self.invert_fg_bg {
            self.bg
        } else {
            self.fg
        };

        match self.weight {
            Weight::Faint => {
                color = match sel {
                    Color::BrightBlack => cfg.black,
                    Color::BrightRed => cfg.red,
                    Color::BrightGreen => cfg.green,
                    Color::BrightYellow => cfg.yellow,
                    Color::BrightBlue => cfg.blue,
                    Color::BrightMagenta => cfg.magenta,
                    Color::BrightCyan => cfg.cyan,
                    Color::BrightWhite => cfg.white,
                    _ => color.scaled_down(),
                };
            },
            Weight::Normal => {},
            Weight::Bold => {
                color = match sel {
                    Color::Black => cfg.bright_black,
                    Color::Red => cfg.bright_red,
                    Color::Green => cfg.bright_green,
                    Color::Yellow => cfg.bright_yellow,
                    Color::Blue => cfg.bright_blue,
                    Color::Magenta => cfg.bright_magenta,
                    Color::Cyan => cfg.bright_cyan,
                    Color::White => cfg.bright_white,
                    _ => color.scaled_up(),
                };
            },
        }

        if self.conceal {
            color = Rgba::transparent();
        }

        let underline_color = match self.underline_color {
            Some(c) => color_convert(c, false, cfg),
            None => color,
        };

        let font_size = match self.script {
            Script::Baseline => cfg.font_size,
            Script::Super => cfg.superscript_font_size,
            Script::Sub => cfg.subscript_font_size,
        };

        ResolvedStyle {
            color,
            background,
            proportional: self.proportional,
            font_size,
            italics: self.italic,
            underline: match self.underline {
                Underline::Off => Stroke::none(),
                Underline::Single => Stroke {
                    width: cfg.underline_width,
                    color: underline_color,
                },
                Underline::Double => Stroke {
                    width: cfg.double_underline_width,
                    color: underline_color,
                },
            },
            strikethrough: if self.strike_through {
                Stroke { width: cfg.strike_through_width, color }
            } else {
                Stroke::none()
            },
            expand_bg: cfg.expand_bg,
            extra_letter_spacing: if !self.proportional {
                half_diff(cfg.font_size, font_size)
            } else {
                0
            },
            valign: match self.script {
                Script::Baseline => Align::Center,
                Script::Super => Align::Min,
                Script::Sub => Align::Max,
            },
            blink: self.blinking,
        }
    }
}

/// Weight remap on a named color: a bold weight over the standard red
/// foreground resolves to the palette's bright red entry.
pub proof fn lemma_bold_named_remap(s: StyleState, cfg: Config)
    requires
        s.fg == Color::Red,
        s.weight == Weight::Bold,
        !s.invert_fg_bg,
        !s.conceal,
    ensures
        resolve_spec(s, cfg).color == cfg.bright_red,
{
}

/// Weight remap on an arbitrary RGB color: a bold weight scales each
/// component by 3/2, clamped to the valid range.
pub proof fn lemma_bold_rgb_gamma(s: StyleState, cfg: Config, r: u8, g: u8, b: u8)
    requires
        s.fg == Color::Rgb(r, g, b),
        s.weight == Weight::Bold,
        !s.invert_fg_bg,
        !s.conceal,
    ensures
        resolve_spec(s, cfg).color == (Rgba { r, g, b, a: 255u8 }).scaled_up_spec(),
{
}

} // verus!
