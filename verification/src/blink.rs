//! The blink animator's arithmetic: a time-driven phase for each blink
//! class, and the delay until the next phase boundary. Stateless per call:
//! nothing here caches or mutates.

use vstd::prelude::*;

use crate::resolve::ResolvedStyle;
use crate::style::Blinking;

verus! {

/// Whether a blink class with the given period is in its swapped half-cycle
/// at the given time. A period of zero disables the class: never swapped.
pub open spec fn swapped_phase_spec(now: nat, period: nat) -> bool {
    period != 0 && now % period > period / 2
}

/// Exec counterpart of [`swapped_phase_spec`].
pub fn swapped_phase(now_ms: u64, period: u64) -> (r: bool)
    ensures
        r == swapped_phase_spec(now_ms as nat, period as nat),
{
    period != 0 && now_ms % period > period / 2
}

/// The delay until the next half-cycle boundary of a class, or zero where
/// the period is too small to have one.
pub open spec fn wait_for_spec(now: nat, period: nat) -> nat {
    if period / 2 == 0 {
        0
    } else {
        (period / 2 - now % (period / 2)) as nat
    }
}

/// Exec counterpart of [`wait_for_spec`].
pub fn wait_for(now_ms: u64, period: u64) -> (r: u64)
    ensures
        r == wait_for_spec(now_ms as nat, period as nat),
{
    let half = period / 2;
    if half == 0 {
        0
    } else {
        half - now_ms % half
    }
}

/// A run's style as one snapshot shows it: where the run's blink class is in
/// its swapped phase, foreground and background trade places. The class is
/// consumed here — the handed-out style carries no blink tag — and the
/// stored style is never changed.
pub open spec fn blink_apply_spec(style: ResolvedStyle, slow_swap: bool, fast_swap: bool) -> ResolvedStyle {
    if (style.blink == Blinking::Slow && slow_swap) || (style.blink == Blinking::Fast
        && fast_swap) {
        ResolvedStyle { color: style.background, background: style.color, blink: Blinking::Off, ..style }
    } else {
        ResolvedStyle { blink: Blinking::Off, ..style }
    }
}

/// Exec counterpart of [`blink_apply_spec`].
pub fn blink_apply(style: &ResolvedStyle, slow_swap: bool, fast_swap: bool) -> (r: ResolvedStyle)
    ensures
        r == blink_apply_spec(*style, slow_swap, fast_swap),
{
    let swap = match style.blink {
        Blinking::Off => false,
        Blinking::Slow => slow_swap,
        Blinking::Fast => fast_swap,
    };
    if swap {
        ResolvedStyle {
            color: style.background,
            background: style.color,
            blink: Blinking::Off,
            ..*style
        }
    } else {
        ResolvedStyle { blink: Blinking::Off, ..*style }
    }
}

/// Periodicity: advancing the clock by one full period leaves the phase
/// unchanged, for every period.
pub proof fn lemma_phase_periodic(now: nat, period: nat)
    ensures
        swapped_phase_spec(now + period, period) == swapped_phase_spec(now, period),
{
    if period != 0 {
        vstd::arithmetic::div_mod::lemma_mod_multiples_vanish(
            1,
            now as int,
            period as int,
        );
    }
}

/// Anti-phase: advancing the clock by half an (even, enabled) period flips
/// the phase, except at the exact half-cycle boundaries, where both readings
/// fall on the unswapped edge of their cycles.
pub proof fn lemma_phase_antiphase(now: nat, period: nat)
    requires
        period > 0,
        period % 2 == 0,
        now % (period / 2) != 0,
    ensures
        swapped_phase_spec(now + period / 2, period) != swapped_phase_spec(now, period),
{
    let h = period / 2;
    let p = period as int;
    let r = now as int % p;
    vstd::arithmetic::div_mod::lemma_fundamental_div_mod(p, 2);
    assert(p == 2 * h);
    vstd::arithmetic::div_mod::lemma_mod_bound(now as int, p);
    // the residue mod the half period survives reduction mod the full period
    vstd::arithmetic::div_mod::lemma_mod_mod(now as int, h as int, 2);
    assert(h as int * 2 == p);
    assert((now as int % p) % (h as int) == now as int % (h as int));
    vstd::arithmetic::div_mod::lemma_small_mod(0, h);
    vstd::arithmetic::div_mod::lemma_mod_self_0(h as int);
    assert(r != 0 && r != h);
    // reduce (now + h) mod p to a case split on r against h
    vstd::arithmetic::div_mod::lemma_add_mod_noop(now as int, h as int, p);
    vstd::arithmetic::div_mod::lemma_mod_bound(h as int, p);
    vstd::arithmetic::div_mod::lemma_small_mod(h, p as nat);
    if r < h {
        vstd::arithmetic::div_mod::lemma_small_mod((r + h) as nat, p as nat);
        assert((now + h) as int % p == r + h);
    } else {
        assert(0 <= r + h - p < p);
        vstd::arithmetic::div_mod::lemma_mod_sub_multiples_vanish(r + h, p);
        vstd::arithmetic::div_mod::lemma_small_mod((r + h - p) as nat, p as nat);
        assert((now + h) as int % p == r - h);
    }
}

/// Anti-phase for an odd (enabled) period: the integer half-period rounds
/// down, and the flip then holds at every clock reading except the start
/// of a cycle, where both readings fall on the unswapped edge.
pub proof fn lemma_phase_antiphase_odd(now: nat, period: nat)
    requires
        period >= 3,
        period % 2 == 1,
        now % period != 0,
    ensures
        swapped_phase_spec(now + period / 2, period) != swapped_phase_spec(now, period),
{
    let h = period / 2;
    let p = period as int;
    let r = now as int % p;
    vstd::arithmetic::div_mod::lemma_fundamental_div_mod(p, 2);
    assert(p == 2 * h + 1);
    vstd::arithmetic::div_mod::lemma_mod_bound(now as int, p);
    assert(r != 0);
    // reduce (now + h) mod p to a case split on r against h
    vstd::arithmetic::div_mod::lemma_add_mod_noop(now as int, h as int, p);
    vstd::arithmetic::div_mod::lemma_small_mod(h, p as nat);
    if r <= h {
        // the unswapped reading advances past the half: r + h > h since r >= 1
        vstd::arithmetic::div_mod::lemma_small_mod((r + h) as nat, p as nat);
        assert((now + h) as int % p == r + h);
    } else {
        // the swapped reading wraps to r - h - 1 <= h - 1: unswapped
        assert(0 <= r + h - p < p);
        vstd::arithmetic::div_mod::lemma_mod_sub_multiples_vanish(r + h, p);
        vstd::arithmetic::div_mod::lemma_small_mod((r + h - p) as nat, p as nat);
        assert((now + h) as int % p == r - h - 1);
    }
}

} // verus!
