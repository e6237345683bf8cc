//! Runs and the measures the buffer invariants are stated over: the total
//! character count of a run sequence, and the newline count of a text.

use vstd::prelude::*;

use crate::resolve::ResolvedStyle;

verus! {

/// One run: `len` consecutive characters of the buffer text sharing one
/// resolved style.
#[derive(Clone, Copy, Debug, PartialEq, Eq, Structural)]
pub struct Run {
    pub style: ResolvedStyle,
    pub len: usize,
}

/// The mathematical image of a run.
#[verifier::ext_equal]
pub ghost struct RunV {
    pub style: ResolvedStyle,
    pub len: nat,
}

impl View for Run {
    type V = RunV;

    open spec fn view(&self) -> RunV {
        RunV { style: self.style, len: self.len as nat }
    }
}

/// A run handed out by a render snapshot: its text together with the style
/// to draw it in, blink swap already applied.
#[derive(Clone, Debug, PartialEq, Eq)]
pub struct StyledRun {
    pub text: Vec<char>,
    pub style: ResolvedStyle,
}

/// The mathematical image of a rendered run.
#[verifier::ext_equal]
pub ghost struct StyledRunV {
    pub text: Seq<char>,
    pub style: ResolvedStyle,
}

impl View for StyledRun {
    type V = StyledRunV;

    open spec fn view(&self) -> StyledRunV {
        StyledRunV { text: self.text@, style: self.style }
    }
}

/// Total character count of a run sequence.
pub open spec fn sum_lens(runs: Seq<RunV>) -> nat
    decreases runs.len(),
{
    if runs.len() == 0 {
        0
    } else {
        runs[0].len + sum_lens(runs.skip(1))
    }
}

/// Character offset where run `i` begins: the lengths of the runs before it.
pub open spec fn run_start(runs: Seq<RunV>, i: int) -> nat {
    sum_lens(runs.take(i))
}

pub proof fn lemma_sum_lens_push(runs: Seq<RunV>, r: RunV)
    ensures
        sum_lens(runs.push(r)) == sum_lens(runs) + r.len,
    decreases runs.len(),
{
    let pushed = runs.push(r);
    if runs.len() == 0 {
        assert(pushed[0] == r);
        assert(pushed.skip(1) =~= Seq::<RunV>::empty());
        assert(sum_lens(pushed) == r.len + sum_lens(pushed.skip(1)));
    } else {
        assert(pushed[0] == runs[0]);
        assert(pushed.skip(1) =~= runs.skip(1).push(r));
        lemma_sum_lens_push(runs.skip(1), r);
        assert(sum_lens(pushed) == pushed[0].len + sum_lens(pushed.skip(1)));
    }
}

pub proof fn lemma_sum_lens_update_last(runs: Seq<RunV>, r: RunV)
    requires
        runs.len() > 0,
    ensures
        sum_lens(runs.update(runs.len() - 1, r)) == sum_lens(runs) - runs.last().len + r.len,
    decreases runs.len(),
{
    let updated = runs.update(runs.len() - 1, r);
    if runs.len() == 1 {
        assert(updated.skip(1) =~= runs.skip(1));
    } else {
        assert(updated.skip(1) =~= runs.skip(1).update(runs.skip(1).len() - 1, r));
        lemma_sum_lens_update_last(runs.skip(1), r);
    }
}

/// The run lengths before and from position `i` partition the total.
pub proof fn lemma_sum_lens_split(runs: Seq<RunV>, i: int)
    requires
        0 <= i <= runs.len(),
    ensures
        sum_lens(runs) == sum_lens(runs.take(i)) + sum_lens(runs.skip(i)),
    decreases i,
{
    if i == 0 {
        assert(runs.take(0) =~= Seq::<RunV>::empty());
        assert(runs.skip(0) =~= runs);
    } else {
        assert(runs.take(i).skip(1) =~= runs.skip(1).take(i - 1));
        assert(runs.skip(i) =~= runs.skip(1).skip(i - 1));
        lemma_sum_lens_split(runs.skip(1), i - 1);
        assert(runs.take(i)[0] == runs[0]);
        assert(sum_lens(runs.take(i)) == runs[0].len + sum_lens(runs.skip(1).take(i - 1)));
    }
}

/// Each successive run begins where the previous one ended.
pub proof fn lemma_run_start_succ(runs: Seq<RunV>, i: int)
    requires
        0 <= i < runs.len(),
    ensures
        run_start(runs, i + 1) == run_start(runs, i) + runs[i].len,
{
    assert(runs.take(i + 1) =~= runs.take(i).push(runs[i]));
    lemma_sum_lens_push(runs.take(i), runs[i]);
}

/// A run lies entirely within the text the sequence measures.
pub proof fn lemma_run_start_bound(runs: Seq<RunV>, i: int)
    requires
        0 <= i < runs.len(),
    ensures
        run_start(runs, i) + runs[i].len <= sum_lens(runs),
{
    lemma_run_start_succ(runs, i);
    lemma_sum_lens_split(runs, i + 1);
}

/// How many newline characters a text holds.
pub open spec fn count_newlines(text: Seq<char>) -> nat
    decreases text.len(),
{
    if text.len() == 0 {
        0
    } else {
        (if text[0] == '\n' {
            1nat
        } else {
            0nat
        }) + count_newlines(text.skip(1))
    }
}

pub proof fn lemma_count_newlines_push(text: Seq<char>, c: char)
    ensures
        count_newlines(text.push(c)) == count_newlines(text) + (if c == '\n' {
            1nat
        } else {
            0nat
        }),
    decreases text.len(),
{
    let pushed = text.push(c);
    if text.len() == 0 {
        assert(pushed[0] == c);
        assert(pushed.skip(1) =~= Seq::<char>::empty());
        assert(count_newlines(pushed) == (if c == '\n' {
            1nat
        } else {
            0nat
        }) + count_newlines(pushed.skip(1)));
    } else {
        assert(pushed[0] == text[0]);
        assert(pushed.skip(1) =~= text.skip(1).push(c));
        lemma_count_newlines_push(text.skip(1), c);
        assert(count_newlines(pushed) == (if pushed[0] == '\n' {
            1nat
        } else {
            0nat
        }) + count_newlines(pushed.skip(1)));
    }
}

/// Skipping a newline-free prefix does not change the newline count.
pub proof fn lemma_count_newlines_skip_clean(text: Seq<char>, k: int)
    requires
        0 <= k <= text.len(),
        forall|j: int| 0 <= j < k ==> text[j] != '\n',
    ensures
        count_newlines(text) == count_newlines(text.skip(k)),
    decreases k,
{
    if k == 0 {
        assert(text.skip(0) =~= text);
    } else {
        assert(text.skip(1).skip(k - 1) =~= text.skip(k));
        lemma_count_newlines_skip_clean(text.skip(1), k - 1);
    }
}

/// Removing everything up to and including the first newline lowers the
/// newline count by exactly one.
pub proof fn lemma_count_newlines_after_first(text: Seq<char>, i: int)
    requires
        0 <= i < text.len(),
        text[i] == '\n',
        forall|j: int| 0 <= j < i ==> text[j] != '\n',
    ensures
        count_newlines(text) == 1 + count_newlines(text.skip(i + 1)),
{
    lemma_count_newlines_skip_clean(text, i);
    assert(text.skip(i)[0] == text[i]);
    assert(text.skip(i).skip(1) =~= text.skip(i + 1));
}

/// The run slices of a buffer, concatenated in order.
pub open spec fn runs_concat_spec(text: Seq<char>, runs: Seq<RunV>) -> Seq<char>
    decreases runs.len(),
{
    if runs.len() == 0 {
        Seq::empty()
    } else {
        text.take(runs[0].len as int) + runs_concat_spec(
            text.skip(runs[0].len as int),
            runs.skip(1),
        )
    }
}

pub proof fn lemma_runs_concat(text: Seq<char>, runs: Seq<RunV>)
    requires
        sum_lens(runs) == text.len(),
    ensures
        runs_concat_spec(text, runs) =~= text,
    decreases runs.len(),
{
    if runs.len() == 0 {
        assert(runs_concat_spec(text, runs) =~= text);
    } else {
        let n = runs[0].len as int;
        assert(sum_lens(runs) == runs[0].len + sum_lens(runs.skip(1)));
        lemma_runs_concat(text.skip(n), runs.skip(1));
        assert(text.take(n) + text.skip(n) =~= text);
    }
}

} // verus!
