//! Decoded terminal input events.
//!
//! The engine does not parse raw escape bytes itself: a byte-to-event decoder
//! is an external collaborator, and hands the engine one of these values per
//! input byte or complete control sequence.

use vstd::prelude::*;

use crate::color::Color;

verus! {

/// One SGR (Select Graphic Rendition) parameter.
#[derive(Clone, Copy, Debug, PartialEq, Eq, Structural)]
pub enum Sgr {
    Reset,
    Bold,
    Faint,
    NormalIntensity,
    Italic,
    NeitherItalicNorBlackletter,
    Underline,
    DoublyUnderlined,
    NotUnderlined,
    SlowBlink,
    RapidBlink,
    NotBlinking,
    InvertFgBg,
    NotInvertedFgBg,
    Conceal,
    Reveal,
    CrossedOut,
    NotCrossedOut,
    Superscript,
    Subscript,
    NeitherSuperscriptNorSubscript,
    ProportionalSpacing,
    DisableProportionalSpacing,
    PrimaryFont,
    AlternativeFont(u8),
    Fraktur,
    Fg(Color),
    Bg(Color),
    UnderlineColor(Color),
    /// Any parameter the engine does not recognize; always ignored.
    Unsupported,
}

/// A parsed CSI (Control Sequence Introducer) sequence.
///
/// Only a minimal set has a defined effect in this scope; the rest are
/// recognized as distinct codes so that dispatch can make the unimplemented
/// branch explicit rather than mis-handling them.
#[derive(Clone, Debug, PartialEq, Eq)]
pub enum Csi {
    SelectGraphicRendition(Vec<Sgr>),
    EraseDisplay,
    CursorRight(u16),
    CursorNextLine(u16),
    CursorLeft(u16),
    CursorDown(u16),
    CursorUp(u16),
    CursorPreviousLine(u16),
    CursorHorizontalAbsolute(u16),
    CursorTo { row: u16, col: u16 },
    HorizontalVerticalPosition { row: u16, col: u16 },
    CursorLineAbsolute(u16),
    ReportCursorPosition,
    ReportedCursorPosition { row: u16, col: u16 },
    EraseFromCursor,
    EraseToCursor,
    EraseScreen,
    EraseSavedLines,
    EraseFromCursorToEndOfLine,
    EraseStartOfLineToCursor,
    EraseLine,
    ScrollUp(u16),
    ScrollDown(u16),
    SetScrollingRegion { top: u16, bottom: u16 },
    DeleteLines(u16),
    InsertLines(u16),
    AuxPortOn,
    AuxPortOff,
    DeviceStatusReport,
    SaveCurrentCursorPosition,
    RestoreCurrentCursorPosition,
    ShowCursor,
    HideCursor,
    EnableFocusReporting,
    DisableFocusReporting,
    EnableBracketPastingMode,
    DisableBracketPastingMode,
    SaveScreen,
    RestoreScreen,
    EnableAlternativeBuffer,
    DisableAlternativeBuffer,
    ScreenMode(u8),
    ResetScreenMode(u8),
    /// Any sequence the decoder could not classify; always ignored.
    Unsupported,
}

/// One decoded input event, as handed in by the byte-to-event decoder.
#[derive(Clone, Debug, PartialEq, Eq)]
pub enum Event {
    /// A plain data character.
    Data(char),
    /// An explicit space.
    Space,
    /// A C0 control byte, treated as its character equivalent.
    C0(u8),
    /// A complete parsed CSI sequence.
    Csi(Csi),
    /// Anything else the decoder produced; always ignored.
    Other,
}

} // verus!
