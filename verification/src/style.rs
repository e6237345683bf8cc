//! The style state machine: the "current pen" that accumulates SGR parameter
//! effects, with a reset operation and idempotent field updates.

use vstd::prelude::*;

use crate::color::Color;
use crate::event::{Csi, Event, Sgr};

verus! {

/// Underline kind of the current pen.
#[derive(Clone, Copy, Debug, PartialEq, Eq, Structural)]
pub enum Underline {
    Off,
    Single,
    Double,
}

/// Stroke weight of the current pen.
#[derive(Clone, Copy, Debug, PartialEq, Eq, Structural)]
pub enum Weight {
    Faint,
    Normal,
    Bold,
}

/// Blink class of the current pen.
#[derive(Clone, Copy, Debug, PartialEq, Eq, Structural)]
pub enum Blinking {
    Off,
    Slow,
    Fast,
}

/// Script position of the current pen.
#[derive(Clone, Copy, Debug, PartialEq, Eq, Structural)]
pub enum Script {
    Baseline,
    Super,
    Sub,
}

/// The abstract style state: every enumerated field holds exactly one value
/// at all times, and applying the same SGR code twice leaves the state
/// unchanged.
#[derive(Clone, Copy, Debug, PartialEq, Eq)]
pub struct StyleState {
    pub fg: Color,
    pub bg: Color,
    pub proportional: bool,
    pub italic: bool,
    pub weight: Weight,
    pub script: Script,
    pub blinking: Blinking,
    pub underline: Underline,
    pub underline_color: Option<Color>,
    pub invert_fg_bg: bool,
    pub strike_through: bool,
    pub conceal: bool,
}

/// The state every field returns to on an SGR reset.
pub open spec fn reset_spec() -> StyleState {
    StyleState {
        fg: Color::Default,
        bg: Color::Default,
        proportional: false,
        italic: false,
        weight: Weight::Normal,
        script: Script::Baseline,
        blinking: Blinking::Off,
        underline: Underline::Off,
        underline_color: None,
        invert_fg_bg: false,
        strike_through: false,
        conceal: false,
    }
}

/// The effect of one SGR parameter on the style state: it mutates exactly
/// the fields that parameter controls and leaves every other field alone;
/// unrecognized parameters change nothing.
pub open spec fn apply_spec(s: StyleState, code: Sgr) -> StyleState {
    match code {
        Sgr::Reset => reset_spec(),
        Sgr::Bold => StyleState { weight: Weight::Bold, ..s },
        Sgr::Faint => StyleState { weight: Weight::Faint, ..s },
        Sgr::NormalIntensity => StyleState { weight: Weight::Normal, ..s },
        Sgr::Italic => StyleState { italic: true, ..s },
        Sgr::NeitherItalicNorBlackletter => StyleState { italic: false, ..s },
        Sgr::Underline => StyleState { underline: Underline::Single, ..s },
        Sgr::DoublyUnderlined => StyleState { underline: Underline::Double, ..s },
        Sgr::NotUnderlined => StyleState { underline: Underline::Off, ..s },
        Sgr::SlowBlink => StyleState { blinking: Blinking::Slow, ..s },
        Sgr::RapidBlink => StyleState { blinking: Blinking::Fast, ..s },
        Sgr::NotBlinking => StyleState { blinking: Blinking::Off, ..s },
        Sgr::InvertFgBg => StyleState { invert_fg_bg: true, ..s },
        Sgr::NotInvertedFgBg => StyleState { invert_fg_bg: false, ..s },
        Sgr::Conceal => StyleState { conceal: true, ..s },
        Sgr::Reveal => StyleState { conceal: false, ..s },
        Sgr::CrossedOut => StyleState { strike_through: true, ..s },
        Sgr::NotCrossedOut => StyleState { strike_through: false, ..s },
        Sgr::Superscript => StyleState { script: Script::Super, ..s },
        Sgr::Subscript => StyleState { script: Script::Sub, ..s },
        Sgr::NeitherSuperscriptNorSubscript => StyleState { script: Script::Baseline, ..s },
        Sgr::ProportionalSpacing => StyleState { proportional: true, ..s },
        Sgr::DisableProportionalSpacing => StyleState { proportional: false, ..s },
        Sgr::Fg(color) => StyleState { fg: color, ..s },
        Sgr::Bg(color) => StyleState { bg: color, ..s },
        Sgr::UnderlineColor(color) => StyleState { underline_color: Some(color), ..s },
        Sgr::PrimaryFont => s,
        Sgr::AlternativeFont(_) => s,
        Sgr::Fraktur => s,
        Sgr::Unsupported => s,
    }
}

/// The effect of a whole SGR parameter list, applied left to right.
pub open spec fn apply_seq_spec(s: StyleState, codes: Seq<Sgr>) -> StyleState
    decreases codes.len(),
{
    if codes.len() == 0 {
        s
    } else {
        apply_seq_spec(apply_spec(s, codes[0]), codes.skip(1))
    }
}

/// The effect of one decoded event on the style state alone: only an SGR
/// parameter list changes it.
pub open spec fn style_march_spec(s: StyleState, ev: Event) -> StyleState {
    match ev {
        Event::Csi(Csi::SelectGraphicRendition(codes)) => apply_seq_spec(s, codes@),
        _ => s,
    }
}

impl StyleState {
    /// A fresh pen, with every field at its default.
    pub fn new() -> (s: Self)
        ensures
            s == reset_spec(),
    {
        StyleState {
            fg: Color::Default,
            bg: Color::Default,
            proportional: false,
            italic: false,
            weight: Weight::Normal,
            script: Script::Baseline,
            blinking: Blinking::Off,
            underline: Underline::Off,
            underline_color: None,
            invert_fg_bg: false,
            strike_through: false,
            conceal: false,
        }
    }

    /// Applies one SGR parameter to the pen.
    pub fn sg(&mut self, code: Sgr)
        ensures
            *final(self) == apply_spec(*old(self), code),
    {
        match code {
            Sgr::Reset => {
                self.fg = Color::Default;
                self.bg = Color::Default;
                self.proportional = false;
                self.italic = false;
                self.weight = Weight::Normal;
                self.underline = Underline::Off;
                self.underline_color = None;
                self.invert_fg_bg = false;
                self.strike_through = false;
                self.conceal = false;
                self.blinking = Blinking::Off;
                self.script = Script::Baseline;
            },
            Sgr::Bold => self.weight = Weight::Bold,
            Sgr::Faint => self.weight = Weight::Faint,
            Sgr::NormalIntensity => self.weight = Weight::Normal,
            Sgr::Italic => self.italic = true,
            Sgr::NeitherItalicNorBlackletter => self.italic = false,
            Sgr::Underline => self.underline = Underline::Single,
            Sgr::DoublyUnderlined => self.underline = Underline::Double,
            Sgr::NotUnderlined => self.underline = Underline::Off,
            Sgr::SlowBlink => self.blinking = Blinking::Slow,
            Sgr::RapidBlink => self.blinking = Blinking::Fast,
            Sgr::NotBlinking => self.blinking = Blinking::Off,
            Sgr::InvertFgBg => self.invert_fg_bg = true,
            Sgr::NotInvertedFgBg => self.invert_fg_bg = false,
            Sgr::Conceal => self.conceal = true,
            Sgr::Reveal => self.conceal = false,
            Sgr::CrossedOut => self.strike_through = true,
            Sgr::NotCrossedOut => self.strike_through = false,
            Sgr::Superscript => self.script = Script::Super,
            Sgr::Subscript => self.script = Script::Sub,
            Sgr::NeitherSuperscriptNorSubscript => self.script = Script::Baseline,
            Sgr::ProportionalSpacing => self.proportional = true,
            Sgr::DisableProportionalSpacing => self.proportional = false,
            Sgr::Fg(color) => self.fg = color,
            Sgr::Bg(color) => self.bg = color,
            Sgr::UnderlineColor(color) => self.underline_color = Some(color),
            Sgr::PrimaryFont => {},
            Sgr::AlternativeFont(_) => {},
            Sgr::Fraktur => {},
            Sgr::Unsupported => {},
        }
    }

    /// Applies a whole SGR parameter list, left to right.
    pub fn sg_all(&mut self, codes: &Vec<Sgr>)
        ensures
            *final(self) == apply_seq_spec(*old(self), codes@),
    {
        let ghost start = *self;
        proof {
            assert(codes@.skip(0) =~= codes@);
        }
        let mut i: usize = 0;
        while i < codes.len()
            invariant
                i <= codes@.len(),
                apply_seq_spec(*self, codes@.skip(i as int)) == apply_seq_spec(start, codes@),
            decreases codes@.len() - i,
        {
            proof {
                assert(codes@.skip(i as int)[0] == codes@[i as int]);
                assert(codes@.skip(i as int).skip(1) =~= codes@.skip(i as int + 1));
            }
            self.sg(codes[i]);
            i += 1;
        }
        proof {
            assert(codes@.skip(codes@.len() as int) =~= Seq::<Sgr>::empty());
        }
    }

    /// Routes one parsed CSI sequence: only an SGR parameter list affects
    /// the pen.
    pub fn csi(&mut self, csi: &Csi)
        ensures
            *final(self) == match csi {
                Csi::SelectGraphicRendition(codes) => apply_seq_spec(*old(self), codes@),
                _ => *old(self),
            },
    {
        match csi {
            Csi::SelectGraphicRendition(codes) => self.sg_all(codes),
            _ => {},
        }
    }

    /// Routes one decoded event: only a CSI with an SGR list affects the pen.
    pub fn march(&mut self, ev: &Event)
        ensures
            *final(self) == style_march_spec(*old(self), *ev),
    {
        match ev {
            Event::Csi(csi) => self.csi(csi),
            _ => {},
        }
    }
}

impl Default for StyleState {
    /// Same as [`StyleState::new`].
    fn default() -> (s: Self)
        ensures
            s == reset_spec(),
    {
        StyleState::new()
    }
}

/// Applying any single SGR parameter twice in a row leaves the same state as
/// applying it once: every code is an idempotent field update.
#[verifier::rlimit(50)]
pub proof fn lemma_sg_idempotent(s: StyleState, code: Sgr)
    ensures
        apply_spec(apply_spec(s, code), code) == apply_spec(s, code),
{
}

/// Resetting twice yields exactly the state reached by resetting once.
pub proof fn lemma_reset_idempotent(s: StyleState)
    ensures
        apply_spec(apply_spec(s, Sgr::Reset), Sgr::Reset) == apply_spec(s, Sgr::Reset),
{
}

} // verus!
