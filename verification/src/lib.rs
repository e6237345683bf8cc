//! A terminal-emulation style engine: it consumes decoded terminal control
//! events (plain characters, control characters, parsed CSI/SGR sequences)
//! and maintains a buffer of styled text runs, each a contiguous span of
//! text sharing one fully resolved visual style.

pub mod basic;
pub mod blink;
pub mod color;
pub mod config;
pub mod event;
pub mod full;
pub mod kind;
pub mod resolve;
pub mod runs;
pub mod style;
pub mod width;

pub use basic::Basic;
pub use color::{Color, Rgba};
pub use config::Config;
pub use event::{Csi, Event, Sgr};
pub use full::{CursorPosition, Full, Line};
pub use kind::TerminalKind;
pub use resolve::{Align, ResolvedStyle, Stroke};
pub use runs::{Run, StyledRun};
pub use style::{Blinking, Script, StyleState, Underline, Weight};
