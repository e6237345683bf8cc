//! The line buffer (full variant): an explicit ordered collection of
//! discrete lines, each an independent run list, with a cursor addressing
//! (line, column, offset). Only a minimal set of control operations has a
//! defined effect in this scope; the rest are dispatched to an explicit,
//! observably counted unimplemented branch rather than silently mis-handled.

use vstd::prelude::*;

use crate::blink::{blink_apply, blink_apply_spec, swapped_phase, swapped_phase_spec, wait_for};
use crate::config::Config;
use crate::event::{Csi, Event};
use crate::resolve::{resolve_spec, Align, ResolvedStyle, Stroke};
use crate::runs::{
    lemma_run_start_bound, lemma_run_start_succ, lemma_sum_lens_push, lemma_sum_lens_update_last,
    run_start, sum_lens, Run, RunV, StyledRun, StyledRunV,
};
use crate::basic::{has_blink, lemma_runs_view_push, lemma_runs_view_update, next_wake_spec, runs_ok, runs_view};
use crate::color::Rgba;
use crate::style::{apply_seq_spec, reset_spec, Blinking, StyleState};
use crate::width::{char_width, display_width};

verus! {

/// One line: its text and its ordered run list.
pub struct Line {
    text: Vec<char>,
    runs: Vec<Run>,
}

/// The mathematical image of a line.
#[verifier::ext_equal]
pub ghost struct LineV {
    pub text: Seq<char>,
    pub runs: Seq<RunV>,
}

impl View for Line {
    type V = LineV;

    closed spec fn view(&self) -> LineV {
        LineV { text: self.text@, runs: runs_view(self.runs@) }
    }
}

/// The image of an executable line sequence.
pub open spec fn lines_view(v: Seq<Line>) -> Seq<LineV> {
    v.map_values(|l: Line| l@)
}

/// The cursor: one-based line and display column, plus the character and
/// run offsets within the current line.
#[derive(Clone, Copy, Debug, PartialEq, Eq, Structural)]
pub struct CursorPosition {
    pub line: usize,
    pub column: usize,
    pub line_text_index: usize,
    pub line_fmt_index: usize,
}

impl CursorPosition {
    /// The home position: line one, column one, at the start of the line.
    pub fn new() -> (c: Self)
        ensures
            c == init_cursor_spec(),
    {
        CursorPosition { line: 1, column: 1, line_text_index: 0, line_fmt_index: 0 }
    }
}

pub open spec fn init_cursor_spec() -> CursorPosition {
    CursorPosition { line: 1, column: 1, line_text_index: 0, line_fmt_index: 0 }
}

/// The mathematical image of the cursor.
#[verifier::ext_equal]
pub ghost struct CursorV {
    pub line: nat,
    pub column: nat,
    pub text_index: nat,
    pub fmt_index: nat,
}

impl View for CursorPosition {
    type V = CursorV;

    open spec fn view(&self) -> CursorV {
        CursorV {
            line: self.line as nat,
            column: self.column as nat,
            text_index: self.line_text_index as nat,
            fmt_index: self.line_fmt_index as nat,
        }
    }
}

pub open spec fn init_cursor_v_spec() -> CursorV {
    CursorV { line: 1, column: 1, text_index: 0, fmt_index: 0 }
}

/// The mathematical state of the full buffer.
#[verifier::ext_equal]
pub ghost struct FullView {
    pub lines: Seq<LineV>,
    pub cursor: CursorV,
    pub style: StyleState,
    pub unimplemented: nat,
}

/// The conditions on one line: its runs partition its text and are
/// coalesced and nonempty, and a line's own text never holds a newline.
pub open spec fn line_ok(l: LineV) -> bool {
    &&& sum_lens(l.runs) == l.text.len()
    &&& runs_ok(l.runs)
    &&& (forall|j: int| 0 <= j < l.text.len() ==> l.text[j] != '\n')
}

impl FullView {
    /// Well-formedness: at least one line, every line good, and the cursor
    /// on the last line with its offsets at that line's end.
    pub open spec fn wf(self) -> bool {
        &&& self.lines.len() >= 1
        &&& (forall|i: int| 0 <= i < self.lines.len() ==> line_ok(#[trigger] self.lines[i]))
        &&& self.cursor.line == self.lines.len()
        &&& self.cursor.column >= 1
        &&& self.cursor.text_index == self.lines.last().text.len()
        &&& self.cursor.fmt_index == self.lines.last().runs.len()
    }
}

pub open spec fn empty_line_spec() -> LineV {
    LineV { text: Seq::empty(), runs: Seq::empty() }
}

/// A fresh buffer: one empty line, the cursor home, the default pen.
pub open spec fn full_init_spec() -> FullView {
    FullView {
        lines: seq![empty_line_spec()],
        cursor: init_cursor_v_spec(),
        style: reset_spec(),
        unimplemented: 0,
    }
}

/// Clearing returns to a single empty line and the home cursor; the pen
/// itself and the unimplemented-dispatch count are untouched here. The
/// erase-display dispatch resets the pen on top of this: see
/// [`full_csi_spec`].
pub open spec fn full_clear_spec(m: FullView) -> FullView {
    FullView { lines: seq![empty_line_spec()], cursor: init_cursor_v_spec(), ..m }
}

/// Appending one character to a line, coalescing into its last run when
/// the styles agree.
pub open spec fn line_insert_spec(l: LineV, c: char, style: ResolvedStyle) -> LineV {
    LineV {
        text: l.text.push(c),
        runs: if l.runs.len() > 0 && l.runs.last().style == style {
            l.runs.update(l.runs.len() - 1, RunV { style, len: l.runs.last().len + 1 })
        } else {
            l.runs.push(RunV { style, len: 1 })
        },
    }
}

/// Addition that stops at the machine's column limit; the column counter
/// cannot exceed it anyway.
pub open spec fn sat_add_spec(a: nat, b: nat) -> nat {
    if a + b <= usize::MAX {
        (a + b) as nat
    } else {
        usize::MAX as nat
    }
}

/// Inserting at the cursor: a newline closes the current line, appends a
/// fresh empty one and homes the column; any other character lands at the
/// end of the current line and advances the column by its display width.
pub open spec fn insert_at_spec(m: FullView, c: char, style: ResolvedStyle) -> FullView {
    if c == '\n' {
        FullView {
            lines: m.lines.push(empty_line_spec()),
            cursor: CursorV { line: m.cursor.line + 1, column: 1, text_index: 0, fmt_index: 0 },
            ..m
        }
    } else {
        let l2 = line_insert_spec(m.lines.last(), c, style);
        FullView {
            lines: m.lines.update(m.lines.len() - 1, l2),
            cursor: CursorV {
                line: m.cursor.line,
                column: sat_add_spec(m.cursor.column, display_width(c)),
                text_index: m.cursor.text_index + 1,
                fmt_index: l2.runs.len(),
            },
            ..m
        }
    }
}

/// Feeding one decoded character: resolve the pen, wrap first where the
/// character's width would pass the column cap, then insert at the cursor.
/// The full buffer does not evict: scrollback is unbounded here.
pub open spec fn full_encounter_spec(m: FullView, c: char, cfg: Config) -> FullView {
    let style = resolve_spec(m.style, cfg);
    let wrapped = m.cursor.column + display_width(c) > cfg.max_columns && c != '\n';
    if wrapped {
        insert_at_spec(insert_at_spec(m, '\n', style), c, style)
    } else {
        insert_at_spec(m, c, style)
    }
}

/// One more control sequence hit the unimplemented branch.
pub open spec fn count_unimplemented_spec(m: FullView) -> FullView {
    FullView {
        unimplemented: if m.unimplemented < u64::MAX {
            m.unimplemented + 1
        } else {
            m.unimplemented
        },
        ..m
    }
}

/// CSI dispatch of the full buffer: SGR drives the pen, and erase-display
/// clears the lines and resets the pen to its defaults; the four cursor motions the surrounding dispatcher was written
/// to hand over are recognized and deliberately ignored; every other
/// recognized sequence is an explicit unimplemented no-op, counted so the
/// scope gap stays observable; an unclassifiable sequence is ignored.
pub open spec fn full_csi_spec(m: FullView, csi: Csi, cfg: Config) -> FullView {
    match csi {
        Csi::SelectGraphicRendition(codes) => FullView {
            style: apply_seq_spec(m.style, codes@),
            ..m
        },
        Csi::EraseDisplay => FullView { style: reset_spec(), ..full_clear_spec(m) },
        Csi::CursorRight(_) => m,
        Csi::CursorDown(_) => m,
        Csi::CursorHorizontalAbsolute(_) => m,
        Csi::CursorLeft(_) => m,
        Csi::Unsupported => m,
        _ => count_unimplemented_spec(m),
    }
}

/// Event dispatch of the full buffer.
pub open spec fn full_march_spec(m: FullView, ev: Event, cfg: Config) -> FullView {
    match ev {
        Event::Data(c) => full_encounter_spec(m, c, cfg),
        Event::Space => full_encounter_spec(m, ' ', cfg),
        Event::C0(b) => full_encounter_spec(m, b as char, cfg),
        Event::Csi(csi) => full_csi_spec(m, csi, cfg),
        Event::Other => m,
    }
}

pub proof fn lemma_line_insert_ok(l: LineV, c: char, style: ResolvedStyle)
    requires
        line_ok(l),
        c != '\n',
    ensures
        line_ok(line_insert_spec(l, c, style)),
        line_insert_spec(l, c, style).text.len() == l.text.len() + 1,
        line_insert_spec(l, c, style).runs.len() >= 1,
        line_insert_spec(l, c, style).runs.len() <= l.runs.len() + 1,
{
    let r = line_insert_spec(l, c, style);
    if l.runs.len() > 0 && l.runs.last().style == style {
        let updated = RunV { style, len: l.runs.last().len + 1 };
        lemma_sum_lens_update_last(l.runs, updated);
        assert forall|i: int| 0 <= i < r.runs.len() implies (#[trigger] r.runs[i]).len >= 1 by {
            if i < l.runs.len() - 1 {
                assert(r.runs[i] == l.runs[i]);
            }
        }
        assert forall|i: int, j: int|
            0 <= i && i + 1 == j && j < r.runs.len() implies (#[trigger] r.runs[i]).style != (
        #[trigger] r.runs[j]).style by {
            assert(l.runs[i].style != l.runs[j].style);
            if j < l.runs.len() - 1 {
                assert(r.runs[i] == l.runs[i] && r.runs[j] == l.runs[j]);
            } else {
                assert(r.runs[i] == l.runs[i] && r.runs[j] == updated);
            }
        }
    } else {
        let added = RunV { style, len: 1nat };
        lemma_sum_lens_push(l.runs, added);
        assert forall|i: int| 0 <= i < r.runs.len() implies (#[trigger] r.runs[i]).len >= 1 by {
            if i < l.runs.len() {
                assert(r.runs[i] == l.runs[i]);
            }
        }
        assert forall|i: int, j: int|
            0 <= i && i + 1 == j && j < r.runs.len() implies (#[trigger] r.runs[i]).style != (
        #[trigger] r.runs[j]).style by {
            if j < l.runs.len() {
                assert(r.runs[i] == l.runs[i] && r.runs[j] == l.runs[j]);
                assert(l.runs[i].style != l.runs[j].style);
            } else {
                assert(r.runs[i] == l.runs[i] && r.runs[j] == added);
                if l.runs.len() > 0 {
                    assert(l.runs[i] == l.runs.last());
                }
            }
        }
    }
    assert forall|j: int| 0 <= j < r.text.len() implies r.text[j] != '\n' by {
        if j < l.text.len() {
            assert(r.text[j] == l.text[j]);
        } else {
            assert(r.text[j] == c);
        }
    }
}

#[verifier::rlimit(50)]
pub proof fn lemma_insert_at_wf(m: FullView, c: char, style: ResolvedStyle)
    requires
        m.wf(),
    ensures
        insert_at_spec(m, c, style).wf(),
        insert_at_spec(m, c, style).style == m.style,
        insert_at_spec(m, c, style).unimplemented == m.unimplemented,
        c == '\n' ==> insert_at_spec(m, c, style).lines.len() == m.lines.len() + 1,
        c != '\n' ==> insert_at_spec(m, c, style).lines.len() == m.lines.len(),
{
    let r = insert_at_spec(m, c, style);
    if c == '\n' {
        assert forall|i: int| 0 <= i < r.lines.len() implies line_ok(#[trigger] r.lines[i]) by {
            if i < m.lines.len() {
                assert(r.lines[i] == m.lines[i]);
            } else {
                assert(r.lines[i] == empty_line_spec());
            }
        }
        assert(r.lines.last() == empty_line_spec());
    } else {
        lemma_line_insert_ok(m.lines.last(), c, style);
        let l2 = line_insert_spec(m.lines.last(), c, style);
        assert forall|i: int| 0 <= i < r.lines.len() implies line_ok(#[trigger] r.lines[i]) by {
            if i < m.lines.len() - 1 {
                assert(r.lines[i] == m.lines[i]);
            } else {
                assert(r.lines[i] == l2);
            }
        }
        assert(r.lines.last() == l2);
    }
}

pub proof fn lemma_full_encounter_wf(m: FullView, c: char, cfg: Config)
    requires
        m.wf(),
        cfg.wf(),
    ensures
        full_encounter_spec(m, c, cfg).wf(),
        full_encounter_spec(m, c, cfg).style == m.style,
        full_encounter_spec(m, c, cfg).unimplemented == m.unimplemented,
{
    let style = resolve_spec(m.style, cfg);
    let wrapped = m.cursor.column + display_width(c) > cfg.max_columns && c != '\n';
    if wrapped {
        lemma_insert_at_wf(m, '\n', style);
        lemma_insert_at_wf(insert_at_spec(m, '\n', style), c, style);
    } else {
        lemma_insert_at_wf(m, c, style);
    }
}

/// The full line buffer with its pen.
pub struct Full {
    lines: Vec<Line>,
    cursor: CursorPosition,
    style: StyleState,
    unimplemented: u64,
}

impl View for Full {
    type V = FullView;

    closed spec fn view(&self) -> FullView {
        FullView {
            lines: lines_view(self.lines@),
            cursor: self.cursor@,
            style: self.style,
            unimplemented: self.unimplemented as nat,
        }
    }
}

pub proof fn lemma_lines_view_push(v: Seq<Line>, l: Line)
    ensures
        lines_view(v.push(l)) =~= lines_view(v).push(l@),
{
    assert forall|i: int| 0 <= i < v.len() + 1 implies lines_view(v.push(l))[i] == lines_view(
        v,
    ).push(l@)[i] by {
        assert(v.push(l)[i] == if i < v.len() {
            v[i]
        } else {
            l
        });
    }
}

pub proof fn lemma_lines_view_update(v: Seq<Line>, i: int, l: Line)
    requires
        0 <= i < v.len(),
    ensures
        lines_view(v.update(i, l)) =~= lines_view(v).update(i, l@),
{
    assert forall|j: int| 0 <= j < v.len() implies lines_view(v.update(i, l))[j] == lines_view(
        v,
    ).update(i, l@)[j] by {
        assert(v.update(i, l)[j] == if j == i {
            l
        } else {
            v[j]
        });
    }
}

impl Line {
    fn empty() -> (l: Line)
        ensures
            l@ == empty_line_spec(),
    {
        let l = Line { text: Vec::new(), runs: Vec::new() };
        proof {
            assert(l@ =~= empty_line_spec());
        }
        l
    }
}

impl Full {
    /// A fresh buffer: one empty line, the cursor home, the default pen.
    /// The configuration shapes later feeding, not construction.
    pub fn new(_cfg: &Config) -> (t: Self)
        ensures
            t@ == full_init_spec(),
            t@.wf(),
    {
        let mut lines: Vec<Line> = Vec::new();
        lines.push(Line::empty());
        let t = Full {
            lines,
            cursor: CursorPosition::new(),
            style: StyleState::new(),
            unimplemented: 0,
        };
        proof {
            assert(t@.lines =~= seq![empty_line_spec()]);
            assert(t@ =~= full_init_spec());
        }
        t
    }

    /// Returns to a single empty line with the cursor home; the pen
    /// itself and the unimplemented-dispatch count survive (an
    /// erase-display dispatch resets the pen besides: see
    /// [`full_csi_spec`]).
    pub fn clear(&mut self)
        ensures
            final(self)@ == full_clear_spec(old(self)@),
            final(self)@.wf(),
    {
        let mut lines: Vec<Line> = Vec::new();
        lines.push(Line::empty());
        self.lines = lines;
        self.cursor = CursorPosition::new();
        proof {
            assert(self@.lines =~= seq![empty_line_spec()]);
            assert(self@ =~= full_clear_spec(old(self)@));
        }
    }

    /// Inserts one character at the cursor; see [`insert_at_spec`].
    #[verifier::rlimit(100)]
    fn insert_at_cursor(&mut self, c: char, style: ResolvedStyle)
        requires
            old(self)@.wf(),
        ensures
            final(self)@ == insert_at_spec(old(self)@, c, style),
            final(self)@.wf(),
    {
        let ghost m0 = self@;
        proof {
            lemma_insert_at_wf(m0, c, style);
        }
        let w: usize = char_width(c);
        if c == '\n' {
            self.lines.push(Line::empty());
            let new_line: usize = self.lines.len();
            self.cursor = CursorPosition {
                line: new_line,
                column: 1,
                line_text_index: 0,
                line_fmt_index: 0,
            };
            proof {
                let pushed = m0.lines.push(empty_line_spec());
                assert forall|j: int| 0 <= j < pushed.len() implies lines_view(self.lines@)[j]
                    == pushed[j] by {
                    if j < m0.lines.len() {
                        assert(self.lines@[j] == old(self).lines@[j]);
                    }
                }
                assert(lines_view(self.lines@) =~= pushed);
                assert(self@ =~= insert_at_spec(m0, c, style));
            }
        } else {
            let idx: usize = self.lines.len() - 1;
            let ghost l0 = m0.lines.last();
            proof {
                assert(l0 == self.lines@[idx as int]@);
            }
            let rn: usize = self.lines[idx].runs.len();
            let same: bool = rn > 0 && self.lines[idx].runs[rn - 1].style == style;
            let new_col: usize = if w <= usize::MAX - self.cursor.column {
                self.cursor.column + w
            } else {
                usize::MAX
            };
            let cursor_line: usize = self.cursor.line;
            let line_ref = &mut self.lines[idx];
            let ghost runs0 = line_ref.runs@;
            let ghost text0 = line_ref.text@;
            proof {
                assert(l0 == (LineV { text: text0, runs: runs_view(runs0) }));
            }
            line_ref.text.push(c);
            let new_ti: usize = line_ref.text.len();
            if same {
                proof {
                    assert(runs_view(runs0)[rn - 1] == runs0[rn - 1]@);
                    lemma_run_start_bound(runs_view(runs0), rn - 1);
                }
                let old_len: usize = line_ref.runs[rn - 1].len;
                let target = &mut line_ref.runs[rn - 1];
                target.len = old_len + 1;
                proof {
                    lemma_runs_view_update(runs0, rn - 1, Run { style, len: (old_len + 1) as usize });
                }
            } else {
                line_ref.runs.push(Run { style, len: 1 });
                proof {
                    lemma_runs_view_push(runs0, Run { style, len: 1 });
                }
            }
            let new_fmt: usize = line_ref.runs.len();
            proof {
                assert(line_ref@ =~= line_insert_spec(l0, c, style));
            }
            self.cursor = CursorPosition {
                line: cursor_line,
                column: new_col,
                line_text_index: new_ti,
                line_fmt_index: new_fmt,
            };
            proof {
                let updated = m0.lines.update(idx as int, line_insert_spec(l0, c, style));
                assert forall|j: int| 0 <= j < updated.len() implies lines_view(self.lines@)[j]
                    == updated[j] by {
                    if j != idx {
                        assert(self.lines@[j] == old(self).lines@[j]);
                    }
                }
                assert(lines_view(self.lines@) =~= updated);
                assert(self@ =~= insert_at_spec(m0, c, style));
            }
        }
    }
}

/// Everything the lines hold, as one run sequence.
pub open spec fn all_runs_spec(lines: Seq<LineV>) -> Seq<RunV>
    decreases lines.len(),
{
    if lines.len() == 0 {
        Seq::empty()
    } else {
        lines[0].runs + all_runs_spec(lines.skip(1))
    }
}

pub proof fn lemma_has_blink_concat(a: Seq<RunV>, b: Seq<RunV>, class: Blinking)
    ensures
        has_blink(a + b, class) == (has_blink(a, class) || has_blink(b, class)),
{
    let ab = a + b;
    if has_blink(a, class) {
        let j = choose|j: int| 0 <= j < a.len() && (#[trigger] a[j]).style.blink == class;
        assert(ab[j] == a[j]);
        assert(has_blink(ab, class));
    }
    if has_blink(b, class) {
        let j = choose|j: int| 0 <= j < b.len() && (#[trigger] b[j]).style.blink == class;
        assert(ab[a.len() + j] == b[j]);
        assert(has_blink(ab, class));
    }
    if has_blink(ab, class) {
        let j = choose|j: int| 0 <= j < ab.len() && (#[trigger] ab[j]).style.blink == class;
        if j < a.len() {
            assert(a[j] == ab[j]);
            assert(has_blink(a, class));
        } else {
            assert(b[j - a.len()] == ab[j]);
            assert(has_blink(b, class));
        }
    }
}

pub proof fn lemma_has_blink_skip_succ(runs: Seq<RunV>, i: int, class: Blinking)
    requires
        0 <= i < runs.len(),
    ensures
        has_blink(runs.skip(i), class) == (runs[i].style.blink == class || has_blink(
            runs.skip(i + 1),
            class,
        )),
{
    assert(runs.skip(i) =~= seq![runs[i]] + runs.skip(i + 1));
    lemma_has_blink_concat(seq![runs[i]], runs.skip(i + 1), class);
    if has_blink(seq![runs[i]], class) {
        let j = choose|j: int|
            0 <= j < seq![runs[i]].len() && (#[trigger] seq![runs[i]][j]).style.blink == class;
        assert(seq![runs[i]][j] == runs[i]);
    }
    if runs[i].style.blink == class {
        assert(seq![runs[i]][0].style.blink == class);
        assert(has_blink(seq![runs[i]], class));
    }
}

/// What one line renders to: one item per run, each the run's slice of the
/// line text with the snapshot style.
pub open spec fn line_items_spec(l: LineV, ss: bool, fs: bool) -> Seq<StyledRunV> {
    Seq::new(
        l.runs.len(),
        |i: int|
            StyledRunV {
                text: l.text.subrange(
                    run_start(l.runs, i) as int,
                    (run_start(l.runs, i) + l.runs[i].len) as int,
                ),
                style: blink_apply_spec(l.runs[i].style, ss, fs),
            },
    )
}

/// The opaque line-break marker placed between lines: a newline rendered
/// fully transparent in the configured base size.
pub open spec fn line_break_style_spec(cfg: Config) -> ResolvedStyle {
    ResolvedStyle {
        color: Rgba::transparent_spec(),
        background: Rgba::transparent_spec(),
        proportional: false,
        font_size: cfg.font_size,
        italics: false,
        underline: Stroke::none_spec(),
        strikethrough: Stroke::none_spec(),
        expand_bg: 0,
        extra_letter_spacing: 0,
        valign: Align::Center,
        blink: Blinking::Off,
    }
}

pub open spec fn line_break_item_spec(cfg: Config) -> StyledRunV {
    StyledRunV { text: seq!['\n'], style: line_break_style_spec(cfg) }
}

/// The whole snapshot of the full buffer: each line's items in order, with
/// one line-break marker between consecutive lines.
pub open spec fn full_items_spec(lines: Seq<LineV>, ss: bool, fs: bool, cfg: Config) -> Seq<
    StyledRunV,
>
    decreases lines.len(),
{
    if lines.len() == 0 {
        Seq::empty()
    } else if lines.len() == 1 {
        line_items_spec(lines[0], ss, fs)
    } else {
        line_items_spec(lines[0], ss, fs) + seq![line_break_item_spec(cfg)] + full_items_spec(
            lines.skip(1),
            ss,
            fs,
            cfg,
        )
    }
}

/// The image of an executable snapshot.
pub open spec fn styled_view(v: Seq<StyledRun>) -> Seq<StyledRunV> {
    v.map_values(|r: StyledRun| r@)
}

fn line_break_run(cfg: &Config) -> (r: StyledRun)
    ensures
        r@ == line_break_item_spec(*cfg),
{
    let mut text: Vec<char> = Vec::new();
    text.push('\n');
    let r = StyledRun {
        text,
        style: ResolvedStyle {
            color: Rgba::transparent(),
            background: Rgba::transparent(),
            proportional: false,
            font_size: cfg.font_size,
            italics: false,
            underline: Stroke::none(),
            strikethrough: Stroke::none(),
            expand_bg: 0,
            extra_letter_spacing: 0,
            valign: Align::Center,
            blink: Blinking::Off,
        },
    };
    proof {
        assert(r@.text =~= seq!['\n']);
        assert(r@ =~= line_break_item_spec(*cfg));
    }
    r
}

impl Full {
    /// Feeds one decoded character; see [`full_encounter_spec`].
    fn encounter_char(&mut self, c: char, cfg: &Config)
        requires
            old(self)@.wf(),
            cfg.wf(),
        ensures
            final(self)@ == full_encounter_spec(old(self)@, c, *cfg),
            final(self)@.wf(),
    {
        let ghost m0 = self@;
        proof {
            lemma_full_encounter_wf(m0, c, *cfg);
        }
        let style: ResolvedStyle = self.style.resolve(cfg);
        let w: usize = char_width(c);
        let fits: bool = w <= usize::MAX - self.cursor.column;
        let over: bool = if fits {
            self.cursor.column + w > cfg.max_columns
        } else {
            true
        };
        proof {
            assert(over == (m0.cursor.column + display_width(c) > cfg.max_columns));
        }
        if over && c != '\n' {
            self.insert_at_cursor('\n', style);
            self.insert_at_cursor(c, style);
        } else {
            self.insert_at_cursor(c, style);
        }
    }

    /// Routes one parsed CSI sequence per the reduced dispatch of this
    /// scope; see [`full_csi_spec`].
    fn csi(&mut self, csi: &Csi, cfg: &Config)
        requires
            old(self)@.wf(),
            cfg.wf(),
        ensures
            final(self)@ == full_csi_spec(old(self)@, *csi, *cfg),
            final(self)@.wf(),
    {
        let ghost m0 = self@;
        match csi {
            Csi::SelectGraphicRendition(codes) => {
                self.style.sg_all(codes);
                proof {
                    assert(self@ =~= full_csi_spec(m0, *csi, *cfg));
                }
            },
            Csi::EraseDisplay => {
                self.clear();
                self.style = StyleState::new();
                proof {
                    assert(self@ =~= full_csi_spec(m0, *csi, *cfg));
                }
            },
            Csi::CursorRight(_) => {},
            Csi::CursorDown(_) => {},
            Csi::CursorHorizontalAbsolute(_) => {},
            Csi::CursorLeft(_) => {},
            Csi::Unsupported => {},
            _ => {
                // the unfinished motions, erases and modes: an explicit,
                // counted no-op rather than a silently wrong effect
                if self.unimplemented < u64::MAX {
                    self.unimplemented = self.unimplemented + 1;
                }
                proof {
                    assert(self@ =~= count_unimplemented_spec(m0));
                }
            },
        }
    }

    /// Routes one decoded event into the buffer; see [`full_march_spec`].
    pub fn march(&mut self, ev: &Event, cfg: &Config)
        requires
            old(self)@.wf(),
            cfg.wf(),
        ensures
            final(self)@ == full_march_spec(old(self)@, *ev, *cfg),
            final(self)@.wf(),
    {
        match ev {
            Event::Data(c) => self.encounter_char(*c, cfg),
            Event::Space => self.encounter_char(' ', cfg),
            Event::C0(b) => self.encounter_char(*b as char, cfg),
            Event::Csi(csi) => self.csi(csi, cfg),
            Event::Other => {},
        }
    }

    /// How many lines the buffer holds.
    pub fn line_count(&self) -> (n: usize)
        ensures
            n == self@.lines.len(),
    {
        self.lines.len()
    }

    /// The cursor.
    pub fn cursor(&self) -> (c: CursorPosition)
        ensures
            c@ == self@.cursor,
    {
        self.cursor
    }

    /// How many recognized control sequences hit the unimplemented branch.
    pub fn unimplemented_count(&self) -> (n: u64)
        ensures
            n == self@.unimplemented,
    {
        self.unimplemented
    }

    /// The current pen.
    pub fn style_state(&self) -> (s: StyleState)
        ensures
            s == self@.style,
    {
        self.style
    }

    /// A render snapshot at the given clock reading (milliseconds): each
    /// line's runs as text slices with their styles, blink swaps applied
    /// for this snapshot only, an opaque line-break marker between lines,
    /// and the advisory delay until the next re-render.
    #[verifier::rlimit(100)]
    pub fn render(&self, cfg: &Config, now_ms: u64) -> (out: (Vec<StyledRun>, Option<u64>))
        requires
            self@.wf(),
        ensures
            ({
                let ss = swapped_phase_spec(now_ms as nat, cfg.slow_blink_period as nat);
                let fs = swapped_phase_spec(now_ms as nat, cfg.fast_blink_period as nat);
                &&& styled_view(out.0@) == full_items_spec(self@.lines, ss, fs, *cfg)
                &&& out.1 == next_wake_spec(all_runs_spec(self@.lines), *cfg, now_ms as nat)
            }),
    {
        let ghost ss = swapped_phase_spec(now_ms as nat, cfg.slow_blink_period as nat);
        let ghost fs = swapped_phase_spec(now_ms as nat, cfg.fast_blink_period as nat);
        let slow_swap: bool = swapped_phase(now_ms, cfg.slow_blink_period);
        let fast_swap: bool = swapped_phase(now_ms, cfg.fast_blink_period);
        let mut out: Vec<StyledRun> = Vec::new();
        let mut li: usize = 0;
        let mut saw_slow: bool = false;
        let mut saw_fast: bool = false;
        proof {
            assert(self@.lines.skip(0) =~= self@.lines);
            assert(styled_view(out@) =~= Seq::<StyledRunV>::empty());
            assert(styled_view(out@) + full_items_spec(self@.lines, ss, fs, *cfg)
                =~= full_items_spec(self@.lines, ss, fs, *cfg));
        }
        while li < self.lines.len()
            invariant
                self@.wf(),
                li <= self@.lines.len(),
                slow_swap == ss,
                fast_swap == fs,
                styled_view(out@) + full_items_spec(self@.lines.skip(li as int), ss, fs, *cfg)
                    == full_items_spec(self@.lines, ss, fs, *cfg),
                has_blink(all_runs_spec(self@.lines), Blinking::Slow) == (saw_slow || has_blink(
                    all_runs_spec(self@.lines.skip(li as int)),
                    Blinking::Slow,
                )),
                has_blink(all_runs_spec(self@.lines), Blinking::Fast) == (saw_fast || has_blink(
                    all_runs_spec(self@.lines.skip(li as int)),
                    Blinking::Fast,
                )),
            decreases self@.lines.len() - li,
        {
            let ghost lv = self@.lines[li as int];
            let ghost out0 = styled_view(out@);
            proof {
                assert(lv == self.lines@[li as int]@);
                assert(self@.lines.skip(li as int)[0] == lv);
                assert(self@.lines.skip(li as int).skip(1) =~= self@.lines.skip(li as int + 1));
                assert(all_runs_spec(self@.lines.skip(li as int)) == lv.runs + all_runs_spec(
                    self@.lines.skip(li as int + 1),
                ));
                lemma_has_blink_concat(
                    lv.runs,
                    all_runs_spec(self@.lines.skip(li as int + 1)),
                    Blinking::Slow,
                );
                lemma_has_blink_concat(
                    lv.runs,
                    all_runs_spec(self@.lines.skip(li as int + 1)),
                    Blinking::Fast,
                );
                assert(lv.runs.skip(0) =~= lv.runs);
                assert(line_items_spec(lv, ss, fs).take(0) =~= Seq::<StyledRunV>::empty());
                assert(out0 + line_items_spec(lv, ss, fs).take(0) =~= out0);
            }
            let line_text_len: usize = self.lines[li].text.len();
            let rcount: usize = self.lines[li].runs.len();
            let mut offset: usize = 0;
            let mut ri: usize = 0;
            while ri < rcount
                invariant
                    self@.wf(),
                    li < self@.lines.len(),
                    lv == self@.lines[li as int],
                    rcount == lv.runs.len(),
                    line_text_len == lv.text.len(),
                    ri <= rcount,
                    slow_swap == ss,
                    fast_swap == fs,
                    offset == run_start(lv.runs, ri as int),
                    offset <= line_text_len,
                    styled_view(out@) == out0 + line_items_spec(lv, ss, fs).take(ri as int),
                    has_blink(all_runs_spec(self@.lines), Blinking::Slow) == (saw_slow
                        || has_blink(lv.runs.skip(ri as int), Blinking::Slow) || has_blink(
                        all_runs_spec(self@.lines.skip(li as int + 1)),
                        Blinking::Slow,
                    )),
                    has_blink(all_runs_spec(self@.lines), Blinking::Fast) == (saw_fast
                        || has_blink(lv.runs.skip(ri as int), Blinking::Fast) || has_blink(
                        all_runs_spec(self@.lines.skip(li as int + 1)),
                        Blinking::Fast,
                    )),
                decreases rcount - ri,
            {
                let r: Run = self.lines[li].runs[ri];
                proof {
                    assert(r@ == lv.runs[ri as int]);
                    lemma_run_start_bound(lv.runs, ri as int);
                }
                let mut piece: Vec<char> = Vec::new();
                let mut k: usize = 0;
                proof {
                    assert(piece@ =~= lv.text.subrange(offset as int, offset as int));
                }
                while k < r.len
                    invariant
                        self@.wf(),
                        li < self@.lines.len(),
                        lv == self@.lines[li as int],
                        k <= r.len,
                        line_text_len == lv.text.len(),
                        offset + r.len <= line_text_len,
                        piece@ == lv.text.subrange(offset as int, offset + k),
                    decreases r.len - k,
                {
                    let c: char = self.lines[li].text[offset + k];
                    piece.push(c);
                    proof {
                        assert(piece@ =~= lv.text.subrange(offset as int, offset + k + 1));
                    }
                    k += 1;
                }
                let shown: ResolvedStyle = blink_apply(&r.style, slow_swap, fast_swap);
                let ghost prev_out = out@;
                out.push(StyledRun { text: piece, style: shown });
                match r.style.blink {
                    Blinking::Slow => saw_slow = true,
                    Blinking::Fast => saw_fast = true,
                    Blinking::Off => {},
                }
                proof {
                    lemma_run_start_succ(lv.runs, ri as int);
                    lemma_has_blink_skip_succ(lv.runs, ri as int, Blinking::Slow);
                    lemma_has_blink_skip_succ(lv.runs, ri as int, Blinking::Fast);
                    assert(styled_view(prev_out).len() == prev_out.len());
                    assert(prev_out.len() == out0.len() + ri);
                    let pushed_item = StyledRunV { text: piece@, style: shown };
                    let items = line_items_spec(lv, ss, fs);
                    assert(items[ri as int] == (StyledRunV {
                        text: lv.text.subrange(
                            run_start(lv.runs, ri as int) as int,
                            (run_start(lv.runs, ri as int) + lv.runs[ri as int].len) as int,
                        ),
                        style: blink_apply_spec(lv.runs[ri as int].style, ss, fs),
                    }));
                    assert(pushed_item.text =~= items[ri as int].text);
                    assert(pushed_item =~= items[ri as int]);
                    assert forall|j: int| 0 <= j < out@.len() implies styled_view(out@)[j] == (out0
                        + items.take(ri as int + 1))[j] by {
                        assert(styled_view(out@)[j] == out@[j]@);
                        if j < prev_out.len() {
                            assert(out@[j] == prev_out[j]);
                            assert(styled_view(prev_out)[j] == prev_out[j]@);
                            if j >= out0.len() {
                                assert(items.take(ri as int)[j - out0.len()] == items.take(
                                    ri as int + 1,
                                )[j - out0.len()]);
                            }
                        } else {
                            assert(j == out0.len() + ri);
                            assert(out@[j]@ == pushed_item);
                            assert((out0 + items.take(ri as int + 1))[j] == items.take(
                                ri as int + 1,
                            )[ri as int]);
                        }
                    }
                    assert(styled_view(out@) =~= out0 + line_items_spec(lv, ss, fs).take(
                        ri as int + 1,
                    ));
                }
                offset = offset + r.len;
                ri += 1;
            }
            proof {
                assert(line_items_spec(lv, ss, fs).take(rcount as int) =~= line_items_spec(
                    lv,
                    ss,
                    fs,
                ));
                assert(lv.runs.skip(rcount as int) =~= Seq::<RunV>::empty());
            }
            if li + 1 < self.lines.len() {
                let brk: StyledRun = line_break_run(cfg);
                let ghost prev_out = out@;
                out.push(brk);
                proof {
                    assert forall|j: int| 0 <= j < out@.len() implies styled_view(out@)[j] == (
                    out0 + line_items_spec(lv, ss, fs) + seq![line_break_item_spec(*cfg)])[j] by {
                        if j < prev_out.len() {
                            assert(out@[j] == prev_out[j]);
                        } else {
                            assert(out@[j] == brk);
                        }
                    }
                    assert(styled_view(out@) =~= out0 + line_items_spec(lv, ss, fs) + seq![
                        line_break_item_spec(*cfg),
                    ]);
                    assert(full_items_spec(self@.lines.skip(li as int), ss, fs, *cfg)
                        == line_items_spec(lv, ss, fs) + seq![line_break_item_spec(*cfg)]
                        + full_items_spec(self@.lines.skip(li as int + 1), ss, fs, *cfg));
                }
            } else {
                proof {
                    assert(self@.lines.skip(li as int).len() == 1);
                    assert(full_items_spec(self@.lines.skip(li as int), ss, fs, *cfg)
                        == line_items_spec(lv, ss, fs));
                    assert(self@.lines.skip(li as int + 1) =~= Seq::<LineV>::empty());
                    assert(full_items_spec(self@.lines.skip(li as int + 1), ss, fs, *cfg)
                        =~= Seq::<StyledRunV>::empty());
                }
            }
            li += 1;
        }
        proof {
            assert(self@.lines.skip(self@.lines.len() as int) =~= Seq::<LineV>::empty());
            assert(styled_view(out@) + full_items_spec(
                self@.lines.skip(self@.lines.len() as int),
                ss,
                fs,
                *cfg,
            ) =~= styled_view(out@));
        }
        let slow_on: bool = saw_slow && cfg.slow_blink_period / 2 >= 1;
        let fast_on: bool = saw_fast && cfg.fast_blink_period / 2 >= 1;
        let wake: Option<u64> = if slow_on && fast_on {
            let ws: u64 = wait_for(now_ms, cfg.slow_blink_period);
            let wfa: u64 = wait_for(now_ms, cfg.fast_blink_period);
            Some(
                if ws <= wfa {
                    ws
                } else {
                    wfa
                },
            )
        } else if slow_on {
            Some(wait_for(now_ms, cfg.slow_blink_period))
        } else if fast_on {
            Some(wait_for(now_ms, cfg.fast_blink_period))
        } else {
            None
        };
        (out, wake)
    }
}

/// Run partition invariant, per line: within every line, concatenating the
/// run text slices in order reproduces that line's text exactly.
pub proof fn lemma_full_partition(m: FullView)
    requires
        m.wf(),
    ensures
        forall|i: int|
            0 <= i < m.lines.len() ==> crate::runs::runs_concat_spec(
                (#[trigger] m.lines[i]).text,
                m.lines[i].runs,
            ) =~= m.lines[i].text,
{
    assert forall|i: int|
        0 <= i < m.lines.len() implies crate::runs::runs_concat_spec(
        (#[trigger] m.lines[i]).text,
        m.lines[i].runs,
    ) =~= m.lines[i].text by {
        crate::runs::lemma_runs_concat(m.lines[i].text, m.lines[i].runs);
    }
}

/// Appending the same character repeatedly to one line under one style.
pub open spec fn line_feed_spec(l: LineV, cs: Seq<char>, style: ResolvedStyle) -> LineV
    decreases cs.len(),
{
    if cs.len() == 0 {
        l
    } else {
        line_feed_spec(line_insert_spec(l, cs[0], style), cs.skip(1), style)
    }
}

/// Coalescing within a line: a span of characters appended under one style
/// adds at most one run to that line's run list.
pub proof fn lemma_line_coalescing(l: LineV, cs: Seq<char>, style: ResolvedStyle)
    ensures
        line_feed_spec(l, cs, style).runs.len() <= l.runs.len() + 1,
        cs.len() > 0 ==> line_feed_spec(l, cs, style).runs.len() > 0 && line_feed_spec(
            l,
            cs,
            style,
        ).runs.last().style == style,
    decreases cs.len(),
{
    if cs.len() > 0 {
        let l1 = line_insert_spec(l, cs[0], style);
        lemma_line_coalescing(l1, cs.skip(1), style);
        lemma_line_feed_locked(l1, cs.skip(1), style);
    }
}

/// Once a line's last run carries the style, further appends keep the run
/// count as it is.
pub proof fn lemma_line_feed_locked(l: LineV, cs: Seq<char>, style: ResolvedStyle)
    requires
        l.runs.len() > 0,
        l.runs.last().style == style,
    ensures
        line_feed_spec(l, cs, style).runs.len() == l.runs.len(),
        line_feed_spec(l, cs, style).runs.last().style == style,
    decreases cs.len(),
{
    if cs.len() > 0 {
        let l1 = line_insert_spec(l, cs[0], style);
        lemma_line_feed_locked(l1, cs.skip(1), style);
    }
}

} // verus!
