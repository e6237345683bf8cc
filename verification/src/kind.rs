//! The common face of the two buffer variants, for callers that drive a
//! terminal generically: construct, feed decoded events, snapshot, clear.
//! The exact behaviour of each variant is stated on its own methods; this
//! trait promises only that each operation keeps the variant's invariant.

use vstd::prelude::*;

use crate::basic::Basic;
use crate::config::Config;
use crate::event::Event;
use crate::full::Full;
use crate::runs::StyledRun;

verus! {

/// A terminal buffer variant.
pub trait TerminalKind: Sized {
    /// The variant's invariant against the configuration it is fed with.
    spec fn inv(&self, cfg: &Config) -> bool;

    /// A fresh buffer.
    fn new(cfg: &Config) -> (t: Self)
        requires
            cfg.wf(),
        ensures
            t.inv(cfg),
    ;

    /// Feeds one decoded event.
    fn march(&mut self, ev: &Event, cfg: &Config)
        requires
            old(self).inv(cfg),
            cfg.wf(),
        ensures
            final(self).inv(cfg),
    ;

    /// A render snapshot at the given clock reading, with the advisory
    /// delay until the next needed re-render.
    fn render(&self, cfg: &Config, now_ms: u64) -> (out: (Vec<StyledRun>, Option<u64>))
        requires
            self.inv(cfg),
    ;

    /// Empties the buffer.
    fn clear(&mut self)
        ensures
            forall|c: Config| c.wf() ==> final(self).inv(&c),
    ;
}

impl TerminalKind for Basic {
    open spec fn inv(&self, cfg: &Config) -> bool {
        self@.wf() && self@.line <= cfg.max_lines
    }

    fn new(cfg: &Config) -> (t: Self) {
        Basic::new(cfg)
    }

    fn march(&mut self, ev: &Event, cfg: &Config) {
        Basic::march(self, ev, cfg)
    }

    fn render(&self, cfg: &Config, now_ms: u64) -> (out: (Vec<StyledRun>, Option<u64>)) {
        Basic::render(self, cfg, now_ms)
    }

    fn clear(&mut self) {
        Basic::clear(self)
    }
}

impl TerminalKind for Full {
    open spec fn inv(&self, cfg: &Config) -> bool {
        self@.wf()
    }

    fn new(cfg: &Config) -> (t: Self) {
        Full::new(cfg)
    }

    fn march(&mut self, ev: &Event, cfg: &Config) {
        Full::march(self, ev, cfg)
    }

    fn render(&self, cfg: &Config, now_ms: u64) -> (out: (Vec<StyledRun>, Option<u64>)) {
        Full::render(self, cfg, now_ms)
    }

    fn clear(&mut self) {
        Full::clear(self)
    }
}

} // verus!
