//! The run buffer (basic variant): one flat text stream with an append-only
//! run list, automatic line-based eviction once the configured line cap is
//! exceeded, and a dispatcher routing decoded events into it.

use vstd::prelude::*;

use crate::blink::{blink_apply, blink_apply_spec, swapped_phase, swapped_phase_spec, wait_for,
    wait_for_spec};
use crate::config::Config;
use crate::event::{Csi, Event};
use crate::resolve::{resolve_spec, ResolvedStyle};
use crate::runs::{
    count_newlines, lemma_count_newlines_after_first, lemma_count_newlines_push,
    lemma_run_start_bound, lemma_run_start_succ, lemma_runs_concat, lemma_sum_lens_push,
    lemma_sum_lens_update_last, run_start, runs_concat_spec, sum_lens, Run, RunV, StyledRun,
    StyledRunV,
};
use crate::style::Blinking;
use crate::style::{apply_seq_spec, reset_spec, StyleState};
use crate::width::{char_width, display_width};

verus! {

/// The mathematical state of the basic buffer.
#[verifier::ext_equal]
pub ghost struct BasicView {
    pub text: Seq<char>,
    pub runs: Seq<RunV>,
    pub line: nat,
    pub column: nat,
    pub style: StyleState,
}

/// The image of an executable run sequence.
pub open spec fn runs_view(v: Seq<Run>) -> Seq<RunV> {
    v.map_values(|r: Run| r@)
}

pub proof fn lemma_runs_view_push(v: Seq<Run>, r: Run)
    ensures
        runs_view(v.push(r)) =~= runs_view(v).push(r@),
{
    assert forall|i: int| 0 <= i < v.len() + 1 implies runs_view(v.push(r))[i] == runs_view(
        v,
    ).push(r@)[i] by {
        assert(v.push(r)[i] == if i < v.len() {
            v[i]
        } else {
            r
        });
    }
}

pub proof fn lemma_runs_view_update(v: Seq<Run>, i: int, r: Run)
    requires
        0 <= i < v.len(),
    ensures
        runs_view(v.update(i, r)) =~= runs_view(v).update(i, r@),
{
    assert forall|j: int| 0 <= j < v.len() implies runs_view(v.update(i, r))[j] == runs_view(
        v,
    ).update(i, r@)[j] by {
        assert(v.update(i, r)[j] == if j == i {
            r
        } else {
            v[j]
        });
    }
}

/// The conditions on a run sequence alone: every run is nonempty, and
/// adjacent runs are coalesced (their styles differ).
pub open spec fn runs_ok(runs: Seq<RunV>) -> bool {
    &&& (forall|i: int| 0 <= i < runs.len() ==> (#[trigger] runs[i]).len >= 1)
    &&& (forall|i: int, j: int|
        0 <= i && i + 1 == j && j < runs.len() ==> (#[trigger] runs[i]).style != (
        #[trigger] runs[j]).style)
}

impl BasicView {
    /// Well-formedness: the runs partition the text with no gaps or overlaps
    /// (their lengths sum to the text length), every run is nonempty,
    /// adjacent runs are coalesced (their styles differ), and the tracked
    /// line and column counters are consistent.
    pub open spec fn wf(self) -> bool {
        &&& sum_lens(self.runs) == self.text.len()
        &&& runs_ok(self.runs)
        &&& self.line == 1 + count_newlines(self.text)
        &&& self.column >= 1
    }
}

/// A fresh buffer: empty text, one line, column one, default pen.
pub open spec fn init_spec() -> BasicView {
    BasicView {
        text: Seq::empty(),
        runs: Seq::empty(),
        line: 1,
        column: 1,
        style: reset_spec(),
    }
}

/// Clearing empties text and runs and puts the cursor back at (1, 1); the
/// pen itself is untouched here. The erase-display dispatch resets it on
/// top of this: see [`csi_spec`].
pub open spec fn clear_spec(m: BasicView) -> BasicView {
    BasicView { text: Seq::empty(), runs: Seq::empty(), line: 1, column: 1, style: m.style }
}

/// Appending one character with a resolved style: the character joins the
/// last run when that run carries the identical style, else a new run of
/// length one opens; a newline advances the line counter and returns the
/// column to one.
pub open spec fn insert_spec(m: BasicView, c: char, style: ResolvedStyle) -> BasicView {
    let runs2 = if m.runs.len() > 0 && m.runs.last().style == style {
        m.runs.update(m.runs.len() - 1, RunV { style, len: m.runs.last().len + 1 })
    } else {
        m.runs.push(RunV { style, len: 1 })
    };
    BasicView {
        text: m.text.push(c),
        runs: runs2,
        line: if c == '\n' {
            m.line + 1
        } else {
            m.line
        },
        column: if c == '\n' {
            1nat
        } else {
            m.column
        },
        style: m.style,
    }
}

/// The first newline of a text, if any.
pub open spec fn first_newline_spec(text: Seq<char>) -> Option<nat>
    decreases text.len(),
{
    if text.len() == 0 {
        None
    } else if text[0] == '\n' {
        Some(0nat)
    } else {
        match first_newline_spec(text.skip(1)) {
            Some(i) => Some((i + 1) as nat),
            None => None,
        }
    }
}

pub proof fn lemma_first_newline_charac(text: Seq<char>)
    ensures
        match first_newline_spec(text) {
            Some(i) => i < text.len() && text[i as int] == '\n' && (forall|j: int|
                0 <= j < i ==> text[j] != '\n'),
            None => forall|j: int| 0 <= j < text.len() ==> text[j] != '\n',
        },
    decreases text.len(),
{
    if text.len() > 0 && text[0] != '\n' {
        lemma_first_newline_charac(text.skip(1));
        match first_newline_spec(text.skip(1)) {
            Some(i) => {
                assert forall|j: int| 0 <= j < i + 1 implies text[j] != '\n' by {
                    if j > 0 {
                        assert(text.skip(1)[j - 1] == text[j]);
                    }
                }
            },
            None => {
                assert forall|j: int| 0 <= j < text.len() implies text[j] != '\n' by {
                    if j > 0 {
                        assert(text.skip(1)[j - 1] == text[j]);
                    }
                }
            },
        }
    }
}

/// A position that is a newline behind a newline-free prefix is exactly the
/// first newline.
pub proof fn lemma_first_newline_is(text: Seq<char>, i: int)
    requires
        0 <= i < text.len(),
        text[i] == '\n',
        forall|j: int| 0 <= j < i ==> text[j] != '\n',
    ensures
        first_newline_spec(text) == Some(i as nat),
{
    lemma_first_newline_charac(text);
    match first_newline_spec(text) {
        Some(k) => {
            if k < i {
                assert(text[k as int] != '\n');
            } else if i < k {
                assert(text[i] != '\n');
            }
        },
        None => {
            assert(text[i] != '\n');
        },
    }
}

/// Removing a prefix of `cutoff` characters from the front of a run
/// sequence: runs wholly inside the prefix are dropped, a run straddling
/// the boundary is shortened, the rest are kept.
pub open spec fn trim_runs_spec(runs: Seq<RunV>, cutoff: nat) -> Seq<RunV>
    decreases runs.len(),
{
    if runs.len() == 0 {
        runs
    } else if runs[0].len <= cutoff {
        trim_runs_spec(runs.skip(1), (cutoff - runs[0].len) as nat)
    } else if cutoff > 0 {
        seq![RunV { style: runs[0].style, len: (runs[0].len - cutoff) as nat }] + runs.skip(1)
    } else {
        runs
    }
}

#[verifier::rlimit(100)]
pub proof fn lemma_trim_runs_wf(runs: Seq<RunV>, cutoff: nat)
    requires
        cutoff <= sum_lens(runs),
        runs_ok(runs),
    ensures
        sum_lens(trim_runs_spec(runs, cutoff)) == sum_lens(runs) - cutoff,
        runs_ok(trim_runs_spec(runs, cutoff)),
        trim_runs_spec(runs, cutoff).len() <= runs.len(),
        trim_runs_spec(runs, cutoff).len() > 0 ==> runs.len() > 0 && trim_runs_spec(
            runs,
            cutoff,
        ).last().style == runs.last().style,
    decreases runs.len(),
{
    let trimmed = trim_runs_spec(runs, cutoff);
    if runs.len() == 0 {
    } else if runs[0].len <= cutoff {
        assert(sum_lens(runs) == runs[0].len + sum_lens(runs.skip(1)));
        assert(runs_ok(runs.skip(1))) by {
            lemma_runs_ok_skip(runs, 1);
        }
        lemma_trim_runs_wf(runs.skip(1), (cutoff - runs[0].len) as nat);
        if trimmed.len() > 0 {
            assert(runs.skip(1).last() == runs.last());
        }
    } else {
        assert(sum_lens(runs) == runs[0].len + sum_lens(runs.skip(1)));
        if cutoff > 0 {
            let head = RunV { style: runs[0].style, len: (runs[0].len - cutoff) as nat };
            assert(trimmed == seq![head] + runs.skip(1));
            assert(trimmed[0] == head);
            assert(trimmed.skip(1) =~= runs.skip(1));
            assert(sum_lens(trimmed) == head.len + sum_lens(runs.skip(1)));
            assert forall|i: int| 0 <= i < trimmed.len() implies (#[trigger] trimmed[i]).len
                >= 1 by {
                if i > 0 {
                    assert(trimmed[i] == runs[i]);
                }
            }
            assert forall|i: int, j: int|
                0 <= i && i + 1 == j && j < trimmed.len() implies (#[trigger] trimmed[i]).style
                != (#[trigger] trimmed[j]).style by {
                assert(trimmed[j] == runs[j]);
                if i > 0 {
                    assert(trimmed[i] == runs[i]);
                }
            }
            if trimmed.len() > 1 {
                assert(trimmed.last() == runs.last());
            }
        }
    }
}

/// Dropping a prefix of a good run sequence leaves a good run sequence.
pub proof fn lemma_runs_ok_skip(runs: Seq<RunV>, k: int)
    requires
        runs_ok(runs),
        0 <= k <= runs.len(),
    ensures
        runs_ok(runs.skip(k)),
{
    let rest = runs.skip(k);
    assert forall|i: int| 0 <= i < rest.len() implies (#[trigger] rest[i]).len >= 1 by {
        assert(rest[i] == runs[i + k]);
    }
    assert forall|i: int, j: int|
        0 <= i && i + 1 == j && j < rest.len() implies (#[trigger] rest[i]).style != (
    #[trigger] rest[j]).style by {
        assert(rest[i] == runs[i + k]);
        assert(rest[j] == runs[j + k]);
    }
}

/// Removing the oldest line: everything up to and including the first
/// newline leaves the stream, and every run is adjusted by the removed
/// prefix; a buffer with no newline at all is cleared entirely.
pub open spec fn delete_line_spec(m: BasicView) -> BasicView {
    match first_newline_spec(m.text) {
        Some(i) => BasicView {
            text: m.text.skip(i as int + 1),
            runs: trim_runs_spec(m.runs, i + 1),
            line: (m.line - 1) as nat,
            column: m.column,
            style: m.style,
        },
        None => clear_spec(m),
    }
}

#[verifier::rlimit(100)]
pub proof fn lemma_delete_line_wf(m: BasicView)
    requires
        m.wf(),
    ensures
        delete_line_spec(m).wf(),
        m.line >= 2 ==> delete_line_spec(m).line == m.line - 1,
        m.line == 1 ==> delete_line_spec(m).line == 1,
        delete_line_spec(m).column == m.column || delete_line_spec(m).column == 1,
        delete_line_spec(m).runs.len() <= m.runs.len(),
        delete_line_spec(m).runs.len() > 0 ==> m.runs.len() > 0 && delete_line_spec(
            m,
        ).runs.last().style == m.runs.last().style,
{
    lemma_first_newline_charac(m.text);
    match first_newline_spec(m.text) {
        Some(i) => {
            lemma_count_newlines_after_first(m.text, i as int);
            lemma_trim_runs_wf(m.runs, i + 1);
            assert(delete_line_spec(m).text =~= m.text.skip(i as int + 1));
            assert(delete_line_spec(m).text.len() == m.text.len() - (i + 1));
        },
        None => {
            lemma_count_has_newline(m.text);
        },
    }
}

/// A text with at least one newline has a first one; contrapositively a
/// text the search misses has a zero newline count.
pub proof fn lemma_count_has_newline(text: Seq<char>)
    requires
        forall|j: int| 0 <= j < text.len() ==> text[j] != '\n',
    ensures
        count_newlines(text) == 0,
    decreases text.len(),
{
    if text.len() > 0 {
        assert forall|j: int| 0 <= j < text.skip(1).len() implies text.skip(1)[j] != '\n' by {
            assert(text.skip(1)[j] == text[j + 1]);
        }
        lemma_count_has_newline(text.skip(1));
    }
}

/// Eviction: lines leave from the front until the count is back under the
/// cap. A single event can add several newlines, so this iterates.
pub open spec fn evict_spec(m: BasicView, max_lines: nat) -> BasicView
    decreases m.line,
{
    if max_lines >= 1 && m.line > max_lines {
        evict_spec(delete_line_spec_dec(m), max_lines)
    } else {
        m
    }
}

/// [`delete_line_spec`] with its line count clamped below the input, so the
/// eviction recursion visibly terminates on every input.
pub open spec fn delete_line_spec_dec(m: BasicView) -> BasicView {
    let d = delete_line_spec(m);
    if d.line < m.line {
        d
    } else {
        BasicView { line: 0, ..d }
    }
}

/// On well-formed buffers the clamp in [`delete_line_spec_dec`] never
/// engages.
pub proof fn lemma_delete_line_spec_dec(m: BasicView)
    requires
        m.wf(),
        m.line >= 2,
    ensures
        delete_line_spec_dec(m) == delete_line_spec(m),
{
    lemma_delete_line_wf(m);
}

#[verifier::rlimit(100)]
pub proof fn lemma_evict_wf(m: BasicView, max_lines: nat)
    requires
        m.wf(),
        max_lines >= 1,
    ensures
        evict_spec(m, max_lines).wf(),
        evict_spec(m, max_lines).line <= max_lines,
        evict_spec(m, max_lines).column == m.column || evict_spec(m, max_lines).column == 1,
        evict_spec(m, max_lines).runs.len() <= m.runs.len(),
        evict_spec(m, max_lines).runs.len() > 0 ==> m.runs.len() > 0 && evict_spec(
            m,
            max_lines,
        ).runs.last().style == m.runs.last().style,
        evict_spec(m, max_lines).style == m.style,
    decreases m.line,
{
    if m.line > max_lines {
        lemma_delete_line_wf(m);
        lemma_delete_line_spec_dec(m);
        lemma_evict_wf(delete_line_spec(m), max_lines);
    }
}

/// Inserting one decoded character: the column advances by the character's
/// display width; when that would pass the column cap (and the character is
/// not itself a newline) an implicit newline is inserted first; then the
/// character itself; then eviction restores the line cap.
pub open spec fn encounter_spec(m: BasicView, c: char, cfg: Config) -> BasicView {
    let style = resolve_spec(m.style, cfg);
    let col2 = m.column + display_width(c);
    let wrapped = col2 > cfg.max_columns && c != '\n';
    let base = BasicView { column: col2, ..m };
    let inserted = if wrapped {
        insert_spec(insert_spec(base, '\n', style), c, style)
    } else {
        insert_spec(base, c, style)
    };
    evict_spec(inserted, cfg.max_lines as nat)
}

#[verifier::rlimit(100)]
pub proof fn lemma_insert_wf(m: BasicView, c: char, style: ResolvedStyle)
    requires
        m.wf(),
    ensures
        insert_spec(m, c, style).wf(),
        insert_spec(m, c, style).line == m.line + (if c == '\n' {
            1nat
        } else {
            0nat
        }),
        insert_spec(m, c, style).column == (if c == '\n' {
            1nat
        } else {
            m.column
        }),
        insert_spec(m, c, style).runs.len() <= m.runs.len() + 1,
        m.runs.len() > 0 && m.runs.last().style == style ==> insert_spec(m, c, style).runs.len()
            == m.runs.len(),
        insert_spec(m, c, style).runs.len() > 0,
        insert_spec(m, c, style).runs.last().style == style,
        insert_spec(m, c, style).style == m.style,
{
    let r = insert_spec(m, c, style);
    lemma_count_newlines_push(m.text, c);
    if m.runs.len() > 0 && m.runs.last().style == style {
        let updated = RunV { style, len: m.runs.last().len + 1 };
        lemma_sum_lens_update_last(m.runs, updated);
        assert forall|i: int| 0 <= i < r.runs.len() implies (#[trigger] r.runs[i]).len >= 1 by {
            if i < m.runs.len() - 1 {
                assert(r.runs[i] == m.runs[i]);
            }
        }
        assert forall|i: int, j: int|
            0 <= i && i + 1 == j && j < r.runs.len() implies (#[trigger] r.runs[i]).style != (
        #[trigger] r.runs[j]).style by {
            assert(m.runs[i].style != m.runs[j].style);
            if j < m.runs.len() - 1 {
                assert(r.runs[i] == m.runs[i] && r.runs[j] == m.runs[j]);
            } else {
                assert(r.runs[i] == m.runs[i] && r.runs[j] == updated);
            }
        }
    } else {
        let added = RunV { style, len: 1nat };
        lemma_sum_lens_push(m.runs, added);
        assert forall|i: int| 0 <= i < r.runs.len() implies (#[trigger] r.runs[i]).len >= 1 by {
            if i < m.runs.len() {
                assert(r.runs[i] == m.runs[i]);
            }
        }
        assert forall|i: int, j: int|
            0 <= i && i + 1 == j && j < r.runs.len() implies (#[trigger] r.runs[i]).style != (
        #[trigger] r.runs[j]).style by {
            if j < m.runs.len() {
                assert(r.runs[i] == m.runs[i] && r.runs[j] == m.runs[j]);
                assert(m.runs[i].style != m.runs[j].style);
            } else {
                assert(r.runs[i] == m.runs[i] && r.runs[j] == added);
                if m.runs.len() > 0 {
                    assert(m.runs[i] == m.runs.last());
                }
            }
        }
    }
}

#[verifier::rlimit(100)]
pub proof fn lemma_encounter_wf(m: BasicView, c: char, cfg: Config)
    requires
        m.wf(),
        cfg.wf(),
    ensures
        encounter_spec(m, c, cfg).wf(),
        encounter_spec(m, c, cfg).line <= cfg.max_lines,
        1 <= encounter_spec(m, c, cfg).column <= cfg.max_columns,
        encounter_spec(m, c, cfg).runs.len() <= m.runs.len() + 1,
        m.runs.len() > 0 && m.runs.last().style == resolve_spec(m.style, cfg)
            ==> encounter_spec(m, c, cfg).runs.len() <= m.runs.len(),
        encounter_spec(m, c, cfg).runs.len() > 0 ==> encounter_spec(m, c, cfg).runs.last().style
            == resolve_spec(m.style, cfg),
        encounter_spec(m, c, cfg).style == m.style,
{
    let style = resolve_spec(m.style, cfg);
    let col2 = m.column + display_width(c);
    let wrapped = col2 > cfg.max_columns && c != '\n';
    let base = BasicView { column: col2, ..m };
    assert(base.wf());
    if wrapped {
        lemma_insert_wf(base, '\n', style);
        lemma_insert_wf(insert_spec(base, '\n', style), c, style);
        lemma_evict_wf(insert_spec(insert_spec(base, '\n', style), c, style), cfg.max_lines as nat);
    } else {
        lemma_insert_wf(base, c, style);
        lemma_evict_wf(insert_spec(base, c, style), cfg.max_lines as nat);
        if c != '\n' {
            assert(insert_spec(base, c, style).column == col2);
            assert(col2 <= cfg.max_columns);
        }
    }
}

/// Inserting the same character `n` times over.
pub open spec fn repeat_spec(m: BasicView, c: char, n: nat, cfg: Config) -> BasicView
    decreases n,
{
    if n == 0 {
        m
    } else {
        repeat_spec(encounter_spec(m, c, cfg), c, (n - 1) as nat, cfg)
    }
}

/// CSI dispatch: an SGR list drives the pen; erase-display clears the
/// buffer and resets the pen to its defaults; cursor-right literally
/// inserts spaces and cursor-next-line literally inserts newlines (both
/// deliberately written, not true cursor motions); every other sequence is
/// a no-op in this reduced scope.
pub open spec fn csi_spec(m: BasicView, csi: Csi, cfg: Config) -> BasicView {
    match csi {
        Csi::SelectGraphicRendition(codes) => BasicView {
            style: apply_seq_spec(m.style, codes@),
            ..m
        },
        Csi::EraseDisplay => BasicView { style: reset_spec(), ..clear_spec(m) },
        Csi::CursorRight(n) => repeat_spec(m, ' ', n as nat, cfg),
        Csi::CursorNextLine(n) => repeat_spec(m, '\n', n as nat, cfg),
        _ => m,
    }
}

/// Event dispatch: data characters, the explicit space, and C0 control
/// bytes (as their character equivalents) are inserted; a CSI is routed to
/// [`csi_spec`]; anything else is ignored.
pub open spec fn march_spec(m: BasicView, ev: Event, cfg: Config) -> BasicView {
    match ev {
        Event::Data(c) => encounter_spec(m, c, cfg),
        Event::Space => encounter_spec(m, ' ', cfg),
        Event::C0(b) => encounter_spec(m, b as char, cfg),
        Event::Csi(csi) => csi_spec(m, csi, cfg),
        Event::Other => m,
    }
}

/// The basic run buffer with its pen: the whole rendered surface as one
/// logical character stream.
pub struct Basic {
    text: Vec<char>,
    runs: Vec<Run>,
    line: usize,
    column: usize,
    style: StyleState,
}

impl View for Basic {
    type V = BasicView;

    closed spec fn view(&self) -> BasicView {
        BasicView {
            text: self.text@,
            runs: runs_view(self.runs@),
            line: self.line as nat,
            column: self.column as nat,
            style: self.style,
        }
    }
}

fn find_newline(text: &Vec<char>) -> (r: Option<usize>)
    ensures
        match r {
            Some(k) => k < text@.len() && first_newline_spec(text@) == Some(k as nat),
            None => first_newline_spec(text@) is None,
        },
{
    let mut k: usize = 0;
    while k < text.len()
        invariant
            k <= text@.len(),
            forall|j: int| 0 <= j < k ==> text@[j] != '\n',
        decreases text@.len() - k,
    {
        if text[k] == '\n' {
            proof {
                lemma_first_newline_is(text@, k as int);
            }
            return Some(k);
        }
        k += 1;
    }
    proof {
        lemma_first_newline_charac(text@);
        if first_newline_spec(text@) is Some {
            let i = first_newline_spec(text@)->Some_0;
            assert(text@[i as int] != '\n');
        }
    }
    None
}

impl Basic {
    /// A fresh, empty buffer with the default pen. The configuration shapes
    /// later feeding, not construction.
    pub fn new(_cfg: &Config) -> (t: Self)
        ensures
            t@ == init_spec(),
            t@.wf(),
    {
        let t = Basic {
            text: Vec::new(),
            runs: Vec::new(),
            line: 1,
            column: 1,
            style: StyleState::new(),
        };
        proof {
            assert(t@ =~= init_spec());
        }
        t
    }

    /// Empties text and runs and returns the cursor to line one, column
    /// one; the pen itself survives (an erase-display dispatch resets it
    /// besides: see [`csi_spec`]).
    pub fn clear(&mut self)
        ensures
            final(self)@ == clear_spec(old(self)@),
            final(self)@.wf(),
    {
        self.text = Vec::new();
        self.runs = Vec::new();
        self.line = 1;
        self.column = 1;
        proof {
            assert(self@ =~= clear_spec(old(self)@));
        }
    }

    /// Appends one character under the given resolved style, coalescing
    /// into the last run when the styles agree.
    fn insert_raw(&mut self, c: char, style: ResolvedStyle)
        requires
            old(self)@.wf(),
            c == '\n' ==> old(self)@.line < usize::MAX,
        ensures
            final(self)@ == insert_spec(old(self)@, c, style),
            final(self)@.wf(),
    {
        let ghost m0 = self@;
        proof {
            lemma_insert_wf(m0, c, style);
        }
        let n: usize = self.runs.len();
        self.text.push(c);
        let text_len: usize = self.text.len();
        proof {
            assert(text_len == m0.text.len() + 1);
        }
        if n > 0 && self.runs[n - 1].style == style {
            proof {
                assert(m0.runs[n - 1] == old(self).runs@[n - 1]@);
                lemma_run_start_bound(m0.runs, n - 1);
                assert(m0.runs[n - 1].len <= sum_lens(m0.runs));
            }
            let old_len: usize = self.runs[n - 1].len;
            let target = &mut self.runs[n - 1];
            target.len = old_len + 1;
            proof {
                lemma_runs_view_update(old(self).runs@, n - 1, Run { style, len: (old_len + 1) as usize });
            }
        } else {
            self.runs.push(Run { style, len: 1 });
            proof {
                lemma_runs_view_push(old(self).runs@, Run { style, len: 1 });
            }
        }
        if c == '\n' {
            self.line = self.line + 1;
            self.column = 1;
        }
        proof {
            assert(self@ =~= insert_spec(m0, c, style));
        }
    }

    /// Removes the oldest line: the prefix through the first newline leaves
    /// the stream and every run is adjusted by the removed length; with no
    /// newline at all the whole buffer is cleared.
    #[verifier::rlimit(100)]
    fn delete_line(&mut self)
        requires
            old(self)@.wf(),
        ensures
            final(self)@ == delete_line_spec(old(self)@),
            final(self)@.wf(),
            old(self)@.line >= 2 ==> final(self)@.line == old(self)@.line - 1,
    {
        let ghost m0 = self@;
        proof {
            lemma_delete_line_wf(m0);
        }
        let text_len: usize = self.text.len();
        match find_newline(&self.text) {
            Some(at) => {
                proof {
                    lemma_first_newline_charac(m0.text);
                    lemma_count_newlines_after_first(m0.text, at as int);
                    assert(at < text_len);
                }
                let cutoff: usize = at + 1;
                // rebuild the text without the removed prefix
                let mut new_text: Vec<char> = Vec::new();
                let mut k: usize = cutoff;
                proof {
                    assert(new_text@ =~= m0.text.subrange(cutoff as int, cutoff as int));
                }
                while k < self.text.len()
                    invariant
                        self@ == m0,
                        cutoff <= k <= m0.text.len(),
                        new_text@ == m0.text.subrange(cutoff as int, k as int),
                    decreases m0.text.len() - k,
                {
                    let c: char = self.text[k];
                    new_text.push(c);
                    proof {
                        assert(new_text@ =~= m0.text.subrange(cutoff as int, k + 1));
                    }
                    k += 1;
                }
                self.text = new_text;
                proof {
                    assert(self.text@ =~= m0.text.skip(cutoff as int));
                }
                // drop runs inside the removed prefix, shorten a straddler
                let ghost rv0 = m0.runs;
                let mut new_runs: Vec<Run> = Vec::new();
                let mut idx: usize = 0;
                let mut cut: usize = cutoff;
                proof {
                    assert(rv0.skip(0) =~= rv0);
                    assert(self.runs@.map_values(|r: Run| r@) == rv0);
                }
                while idx < self.runs.len() && self.runs[idx].len <= cut
                    invariant
                        runs_view(self.runs@) == rv0,
                        idx <= rv0.len(),
                        trim_runs_spec(rv0, cutoff as nat) == trim_runs_spec(
                            rv0.skip(idx as int),
                            cut as nat,
                        ),
                        idx < rv0.len() ==> rv0[idx as int] == self.runs@[idx as int]@,
                    decreases rv0.len() - idx,
                {
                    proof {
                        assert(rv0.skip(idx as int)[0] == rv0[idx as int]);
                        assert(rv0.skip(idx as int).skip(1) =~= rv0.skip(idx as int + 1));
                    }
                    cut = cut - self.runs[idx].len;
                    idx += 1;
                    proof {
                        if idx < rv0.len() {
                            assert(rv0[idx as int] == self.runs@[idx as int]@);
                        }
                    }
                }
                if idx < self.runs.len() {
                    proof {
                        assert(rv0.skip(idx as int)[0] == rv0[idx as int]);
                        assert(rv0.skip(idx as int).skip(1) =~= rv0.skip(idx as int + 1));
                    }
                    let r: Run = self.runs[idx];
                    if cut > 0 {
                        new_runs.push(Run { style: r.style, len: r.len - cut });
                    } else {
                        new_runs.push(r);
                    }
                    proof {
                        assert(trim_runs_spec(rv0, cutoff as nat) =~= runs_view(new_runs@)
                            + rv0.skip(idx as int + 1));
                    }
                    idx += 1;
                    while idx < self.runs.len()
                        invariant
                            runs_view(self.runs@) == rv0,
                            idx <= rv0.len(),
                            trim_runs_spec(rv0, cutoff as nat) =~= runs_view(new_runs@) + rv0.skip(
                                idx as int,
                            ),
                        decreases rv0.len() - idx,
                    {
                        let r2: Run = self.runs[idx];
                        let ghost prev = new_runs@;
                        new_runs.push(r2);
                        proof {
                            lemma_runs_view_push(prev, r2);
                            assert(rv0.skip(idx as int)[0] == rv0[idx as int]);
                            assert(rv0.skip(idx as int).skip(1) =~= rv0.skip(idx as int + 1));
                            assert(rv0[idx as int] == r2@);
                            assert(runs_view(new_runs@) + rv0.skip(idx as int + 1)
                                =~= runs_view(prev) + rv0.skip(idx as int));
                        }
                        idx += 1;
                    }
                    proof {
                        assert(rv0.skip(rv0.len() as int) =~= Seq::<RunV>::empty());
                        assert(runs_view(new_runs@) + rv0.skip(rv0.len() as int) =~= runs_view(
                            new_runs@,
                        ));
                    }
                } else {
                    proof {
                        assert(rv0.skip(idx as int) =~= Seq::<RunV>::empty());
                        assert(runs_view(new_runs@) =~= Seq::<RunV>::empty());
                    }
                }
                self.runs = new_runs;
                self.line = self.line - 1;
                proof {
                    assert(self@ =~= delete_line_spec(m0));
                }
            },
            None => {
                self.clear();
                proof {
                    assert(self@ =~= delete_line_spec(m0));
                }
            },
        }
    }

    /// Feeds one decoded character: resolves the pen, advances the column
    /// by the character's display width, breaks the line first where the
    /// width would pass the column cap, inserts, and then evicts lines from
    /// the front until the line cap holds again.
    fn encounter_char(&mut self, c: char, cfg: &Config)
        requires
            old(self)@.wf(),
            cfg.wf(),
            old(self)@.line <= cfg.max_lines,
        ensures
            final(self)@ == encounter_spec(old(self)@, c, *cfg),
            final(self)@.wf(),
            final(self)@.line <= cfg.max_lines,
    {
        let ghost m0 = self@;
        proof {
            lemma_encounter_wf(m0, c, *cfg);
        }
        let style: ResolvedStyle = self.style.resolve(cfg);
        let w: usize = char_width(c);
        let ghost col2 = m0.column + display_width(c);
        let ghost base = BasicView { column: col2, ..m0 };
        let fits: bool = w <= usize::MAX - self.column;
        let over: bool = if fits {
            self.column + w > cfg.max_columns
        } else {
            true
        };
        proof {
            assert(over == (col2 > cfg.max_columns));
        }
        if over && c != '\n' {
            // the character would not fit: break the line first
            self.insert_raw('\n', style);
            self.insert_raw(c, style);
            proof {
                assert(insert_spec(base, '\n', style) =~= insert_spec(m0, '\n', style));
                lemma_insert_wf(base, '\n', style);
                lemma_insert_wf(insert_spec(base, '\n', style), c, style);
            }
        } else if c == '\n' {
            self.insert_raw(c, style);
            proof {
                assert(insert_spec(base, '\n', style) =~= insert_spec(m0, '\n', style));
                lemma_insert_wf(base, c, style);
            }
        } else {
            self.column = self.column + w;
            proof {
                assert(self@ =~= base);
                lemma_insert_wf(base, c, style);
            }
            self.insert_raw(c, style);
        }
        let ghost ins = self@;
        proof {
            assert(ins == (if col2 > cfg.max_columns && c != '\n' {
                insert_spec(insert_spec(base, '\n', style), c, style)
            } else {
                insert_spec(base, c, style)
            }));
        }
        while self.line > cfg.max_lines
            invariant
                self@.wf(),
                cfg.wf(),
                evict_spec(self@, cfg.max_lines as nat) == evict_spec(ins, cfg.max_lines as nat),
            decreases self.line,
        {
            proof {
                lemma_delete_line_wf(self@);
                lemma_delete_line_spec_dec(self@);
            }
            self.delete_line();
        }
    }

    /// Routes one parsed CSI sequence per the reduced dispatch of this
    /// scope; see [`csi_spec`].
    fn csi(&mut self, csi: &Csi, cfg: &Config)
        requires
            old(self)@.wf(),
            cfg.wf(),
            old(self)@.line <= cfg.max_lines,
        ensures
            final(self)@ == csi_spec(old(self)@, *csi, *cfg),
            final(self)@.wf(),
            final(self)@.line <= cfg.max_lines,
    {
        let ghost m0 = self@;
        match csi {
            Csi::SelectGraphicRendition(codes) => {
                self.style.sg_all(codes);
                proof {
                    assert(self@ =~= csi_spec(m0, *csi, *cfg));
                }
            },
            Csi::EraseDisplay => {
                self.clear();
                self.style = StyleState::new();
                proof {
                    assert(self@ =~= csi_spec(m0, *csi, *cfg));
                }
            },
            Csi::CursorRight(n) => {
                let count: u16 = *n;
                let mut i: u16 = 0;
                while i < count
                    invariant
                        self@.wf(),
                        cfg.wf(),
                        self@.line <= cfg.max_lines,
                        i <= count,
                        repeat_spec(self@, ' ', (count - i) as nat, *cfg) == repeat_spec(
                            m0,
                            ' ',
                            count as nat,
                            *cfg,
                        ),
                    decreases count - i,
                {
                    self.encounter_char(' ', cfg);
                    i += 1;
                }
            },
            Csi::CursorNextLine(n) => {
                let count: u16 = *n;
                let mut i: u16 = 0;
                while i < count
                    invariant
                        self@.wf(),
                        cfg.wf(),
                        self@.line <= cfg.max_lines,
                        i <= count,
                        repeat_spec(self@, '\n', (count - i) as nat, *cfg) == repeat_spec(
                            m0,
                            '\n',
                            count as nat,
                            *cfg,
                        ),
                    decreases count - i,
                {
                    self.encounter_char('\n', cfg);
                    i += 1;
                }
            },
            _ => {},
        }
    }

    /// Routes one decoded event into the buffer: the dispatcher of the
    /// engine; see [`march_spec`].
    pub fn march(&mut self, ev: &Event, cfg: &Config)
        requires
            old(self)@.wf(),
            cfg.wf(),
            old(self)@.line <= cfg.max_lines,
        ensures
            final(self)@ == march_spec(old(self)@, *ev, *cfg),
            final(self)@.wf(),
            final(self)@.line <= cfg.max_lines,
    {
        match ev {
            Event::Data(c) => self.encounter_char(*c, cfg),
            Event::Space => self.encounter_char(' ', cfg),
            Event::C0(b) => self.encounter_char(*b as char, cfg),
            Event::Csi(csi) => self.csi(csi, cfg),
            Event::Other => {},
        }
    }

    /// The tracked line count: one more than the newlines in the stream.
    pub fn line_count(&self) -> (n: usize)
        ensures
            n == self@.line,
    {
        self.line
    }

    /// The current display column, one-based.
    pub fn cursor_column(&self) -> (n: usize)
        ensures
            n == self@.column,
    {
        self.column
    }

    /// How many runs the buffer holds.
    pub fn run_count(&self) -> (n: usize)
        ensures
            n == self@.runs.len(),
    {
        self.runs.len()
    }

    /// The current pen.
    pub fn style_state(&self) -> (s: StyleState)
        ensures
            s == self@.style,
    {
        self.style
    }

    /// A copy of the whole buffer text.
    pub fn text_chars(&self) -> (t: Vec<char>)
        ensures
            t@ == self@.text,
    {
        let mut t: Vec<char> = Vec::new();
        let mut k: usize = 0;
        while k < self.text.len()
            invariant
                k <= self.text@.len(),
                t@ == self.text@.subrange(0, k as int),
            decreases self.text@.len() - k,
        {
            let c: char = self.text[k];
            t.push(c);
            proof {
                assert(t@ =~= self.text@.subrange(0, k + 1));
            }
            k += 1;
        }
        proof {
            assert(t@ =~= self.text@);
        }
        t
    }
}

/// What run `i` contributes to a snapshot: its slice of the buffer text,
/// and its style with this snapshot's blink swap applied.
pub open spec fn rendered_run_spec(m: BasicView, i: int, ss: bool, fs: bool) -> StyledRunV {
    StyledRunV {
        text: m.text.subrange(
            run_start(m.runs, i) as int,
            (run_start(m.runs, i) + m.runs[i].len) as int,
        ),
        style: blink_apply_spec(m.runs[i].style, ss, fs),
    }
}

/// Whether any run carries the given blink class.
pub open spec fn has_blink(runs: Seq<RunV>, class: Blinking) -> bool {
    exists|i: int| 0 <= i < runs.len() && (#[trigger] runs[i]).style.blink == class
}

pub proof fn lemma_has_blink_take_succ(runs: Seq<RunV>, i: int, class: Blinking)
    requires
        0 <= i < runs.len(),
    ensures
        has_blink(runs.take(i + 1), class) == (has_blink(runs.take(i), class)
            || runs[i].style.blink == class),
{
    let a = runs.take(i);
    let b = runs.take(i + 1);
    assert(b =~= a.push(runs[i]));
    if has_blink(a, class) {
        let j = choose|j: int| 0 <= j < a.len() && (#[trigger] a[j]).style.blink == class;
        assert(b[j] == a[j]);
        assert(has_blink(b, class));
    }
    if runs[i].style.blink == class {
        assert(b[i] == runs[i]);
        assert(has_blink(b, class));
    }
    if has_blink(b, class) {
        let j = choose|j: int| 0 <= j < b.len() && (#[trigger] b[j]).style.blink == class;
        if j < i {
            assert(a[j] == b[j]);
            assert(has_blink(a, class));
        } else {
            assert(b[j] == runs[i]);
        }
    }
}

/// The advisory delay until the next phase boundary, over the blink classes
/// present among the runs and enabled by the configuration; nothing to wake
/// for gives none.
pub open spec fn next_wake_spec(runs: Seq<RunV>, cfg: Config, now: nat) -> Option<u64> {
    let slow_on = has_blink(runs, Blinking::Slow) && cfg.slow_blink_period / 2 >= 1;
    let fast_on = has_blink(runs, Blinking::Fast) && cfg.fast_blink_period / 2 >= 1;
    let ws = wait_for_spec(now, cfg.slow_blink_period as nat);
    let wfa = wait_for_spec(now, cfg.fast_blink_period as nat);
    if slow_on && fast_on {
        Some(
            (if ws <= wfa {
                ws
            } else {
                wfa
            }) as u64,
        )
    } else if slow_on {
        Some(ws as u64)
    } else if fast_on {
        Some(wfa as u64)
    } else {
        None
    }
}

impl Basic {
    /// A render snapshot at the given clock reading (milliseconds): every
    /// run as its text slice plus its style, with foreground and background
    /// exchanged for this snapshot only where the run's blink class is in
    /// its swapped phase; and the advisory delay until the next re-render.
    #[verifier::rlimit(100)]
    pub fn render(&self, cfg: &Config, now_ms: u64) -> (out: (Vec<StyledRun>, Option<u64>))
        requires
            self@.wf(),
        ensures
            ({
                let ss = swapped_phase_spec(now_ms as nat, cfg.slow_blink_period as nat);
                let fs = swapped_phase_spec(now_ms as nat, cfg.fast_blink_period as nat);
                &&& out.0@.len() == self@.runs.len()
                &&& (forall|i: int|
                    0 <= i < out.0@.len() ==> (#[trigger] out.0@[i])@ == rendered_run_spec(
                        self@,
                        i,
                        ss,
                        fs,
                    ))
                &&& out.1 == next_wake_spec(self@.runs, *cfg, now_ms as nat)
            }),
    {
        let ghost ss = swapped_phase_spec(now_ms as nat, cfg.slow_blink_period as nat);
        let ghost fs = swapped_phase_spec(now_ms as nat, cfg.fast_blink_period as nat);
        let slow_swap: bool = swapped_phase(now_ms, cfg.slow_blink_period);
        let fast_swap: bool = swapped_phase(now_ms, cfg.fast_blink_period);
        let text_len: usize = self.text.len();
        let mut items: Vec<StyledRun> = Vec::new();
        let mut offset: usize = 0;
        let mut idx: usize = 0;
        let mut saw_slow: bool = false;
        let mut saw_fast: bool = false;
        proof {
            assert(self@.runs.take(0) =~= Seq::<RunV>::empty());
        }
        while idx < self.runs.len()
            invariant
                self@.wf(),
                idx <= self@.runs.len(),
                text_len == self@.text.len(),
                offset == run_start(self@.runs, idx as int),
                offset <= text_len,
                items@.len() == idx,
                forall|i: int|
                    0 <= i < idx ==> (#[trigger] items@[i])@ == rendered_run_spec(
                        self@,
                        i,
                        ss,
                        fs,
                    ),
                slow_swap == ss,
                fast_swap == fs,
                saw_slow == has_blink(self@.runs.take(idx as int), Blinking::Slow),
                saw_fast == has_blink(self@.runs.take(idx as int), Blinking::Fast),
            decreases self@.runs.len() - idx,
        {
            let r: Run = self.runs[idx];
            proof {
                assert(r@ == self@.runs[idx as int]);
                lemma_run_start_bound(self@.runs, idx as int);
            }
            let mut piece: Vec<char> = Vec::new();
            let mut k: usize = 0;
            proof {
                assert(piece@ =~= self@.text.subrange(offset as int, offset as int));
            }
            while k < r.len
                invariant
                    self@.wf(),
                    k <= r.len,
                    text_len == self@.text.len(),
                    offset + r.len <= self@.text.len(),
                    piece@ == self@.text.subrange(offset as int, offset + k),
                decreases r.len - k,
            {
                let c: char = self.text[offset + k];
                piece.push(c);
                proof {
                    assert(piece@ =~= self@.text.subrange(offset as int, offset + k + 1));
                }
                k += 1;
            }
            let shown: ResolvedStyle = blink_apply(&r.style, slow_swap, fast_swap);
            items.push(StyledRun { text: piece, style: shown });
            match r.style.blink {
                Blinking::Slow => saw_slow = true,
                Blinking::Fast => saw_fast = true,
                Blinking::Off => {},
            }
            proof {
                lemma_run_start_succ(self@.runs, idx as int);
                lemma_has_blink_take_succ(self@.runs, idx as int, Blinking::Slow);
                lemma_has_blink_take_succ(self@.runs, idx as int, Blinking::Fast);
                assert(items@[idx as int]@ == rendered_run_spec(self@, idx as int, ss, fs));
            }
            offset = offset + r.len;
            idx += 1;
        }
        proof {
            assert(self@.runs.take(self@.runs.len() as int) =~= self@.runs);
        }
        let slow_on: bool = saw_slow && cfg.slow_blink_period / 2 >= 1;
        let fast_on: bool = saw_fast && cfg.fast_blink_period / 2 >= 1;
        let wake: Option<u64> = if slow_on && fast_on {
            let ws: u64 = wait_for(now_ms, cfg.slow_blink_period);
            let wfa: u64 = wait_for(now_ms, cfg.fast_blink_period);
            Some(
                if ws <= wfa {
                    ws
                } else {
                    wfa
                },
            )
        } else if slow_on {
            Some(wait_for(now_ms, cfg.slow_blink_period))
        } else if fast_on {
            Some(wait_for(now_ms, cfg.fast_blink_period))
        } else {
            None
        };
        (items, wake)
    }
}

/// Feeding a sequence of characters one by one, with no style event in
/// between: the pen stays as it is.
pub open spec fn feed_chars_spec(m: BasicView, cs: Seq<char>, cfg: Config) -> BasicView
    decreases cs.len(),
{
    if cs.len() == 0 {
        m
    } else {
        feed_chars_spec(encounter_spec(m, cs[0], cfg), cs.skip(1), cfg)
    }
}

/// The helper invariant behind coalescing: once the buffer's last run
/// carries the pen's resolved style (or the buffer is empty), further
/// characters never add a second run for the span.
pub proof fn lemma_feed_locked(m: BasicView, cs: Seq<char>, cfg: Config)
    requires
        m.wf(),
        cfg.wf(),
        m.runs.len() == 0 || m.runs.last().style == resolve_spec(m.style, cfg),
    ensures
        feed_chars_spec(m, cs, cfg).wf(),
        feed_chars_spec(m, cs, cfg).style == m.style,
        feed_chars_spec(m, cs, cfg).runs.len() <= (if m.runs.len() == 0 {
            1int
        } else {
            m.runs.len() as int
        }),
        feed_chars_spec(m, cs, cfg).runs.len() > 0 ==> feed_chars_spec(
            m,
            cs,
            cfg,
        ).runs.last().style == resolve_spec(m.style, cfg),
    decreases cs.len(),
{
    if cs.len() > 0 {
        lemma_encounter_wf(m, cs[0], cfg);
        let m1 = encounter_spec(m, cs[0], cfg);
        lemma_feed_locked(m1, cs.skip(1), cfg);
    }
}

/// Coalescing invariant: for any sequence of characters fed while the
/// resolved style is unchanged, at most one run is added, and whatever runs
/// remain end in the single run carrying that style — consecutive
/// characters of one style never split into several runs.
pub proof fn lemma_coalescing(m: BasicView, cs: Seq<char>, cfg: Config)
    requires
        m.wf(),
        cfg.wf(),
    ensures
        feed_chars_spec(m, cs, cfg).runs.len() <= m.runs.len() + 1,
        cs.len() > 0 && feed_chars_spec(m, cs, cfg).runs.len() > 0 ==> feed_chars_spec(
            m,
            cs,
            cfg,
        ).runs.last().style == resolve_spec(m.style, cfg),
    decreases cs.len(),
{
    if cs.len() > 0 {
        lemma_encounter_wf(m, cs[0], cfg);
        let m1 = encounter_spec(m, cs[0], cfg);
        lemma_feed_locked(m1, cs.skip(1), cfg);
    }
}

/// Run partition invariant: concatenating the run text slices in order
/// reproduces the full buffer text exactly, with no gaps or overlaps.
pub proof fn lemma_partition(m: BasicView)
    requires
        m.wf(),
    ensures
        runs_concat_spec(m.text, m.runs) =~= m.text,
{
    lemma_runs_concat(m.text, m.runs);
}

/// Eviction removes only whole lines from the front: one eviction step
/// drops exactly the prefix up to and including the first newline, whose
/// earlier characters hold no newline at all. (That the line count never
/// exceeds the configured maximum after feeding any event is part of the
/// dispatcher's contract: see the `march` postconditions.)
pub proof fn lemma_evict_removes_first_line(m: BasicView)
    requires
        m.wf(),
        m.line >= 2,
    ensures
        match first_newline_spec(m.text) {
            Some(i) => {
                &&& delete_line_spec(m).text == m.text.skip(i as int + 1)
                &&& m.text[i as int] == '\n'
                &&& (forall|j: int| 0 <= j < i ==> m.text[j] != '\n')
            },
            None => false,
        },
{
    lemma_first_newline_charac(m.text);
    match first_newline_spec(m.text) {
        Some(_) => {},
        None => {
            lemma_count_has_newline(m.text);
        },
    }
}

/// The wrap scenario: a character whose display width would pass the
/// column cap has the implicit newline break inserted before it, never
/// after — the stream grows by the break and then the character, both
/// under the pen's one resolved style, and the line count advances by
/// one. Stated below the line cap, where eviction does not overlap the
/// growth claim.
pub proof fn lemma_wrap_breaks_before(m: BasicView, c: char, cfg: Config)
    requires
        m.wf(),
        cfg.wf(),
        m.line < cfg.max_lines,
        c != '\n',
        m.column + display_width(c) > cfg.max_columns,
    ensures
        encounter_spec(m, c, cfg).text == m.text.push('\n').push(c),
        encounter_spec(m, c, cfg).line == m.line + 1,
        encounter_spec(m, c, cfg).runs.len() > 0,
        encounter_spec(m, c, cfg).runs.last().style == resolve_spec(m.style, cfg),
{
    let style = resolve_spec(m.style, cfg);
    let col2 = m.column + display_width(c);
    let base = BasicView { column: col2, ..m };
    lemma_insert_wf(base, '\n', style);
    lemma_insert_wf(insert_spec(base, '\n', style), c, style);
    let ins = insert_spec(insert_spec(base, '\n', style), c, style);
    assert(ins.line == m.line + 1);
    assert(evict_spec(ins, cfg.max_lines as nat) == ins);
}

} // verus!
