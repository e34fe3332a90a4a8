use crate::grid::GridDimensions;
use vstd::arithmetic::div_mod::{lemma_fundamental_div_mod_converse, lemma_mod_add_multiples_vanish};
use vstd::prelude::*;

verus! {

/// Whether a cube is drawn this frame.
#[derive(Clone, Copy, Debug, PartialEq, Eq, Structural)]
pub enum Visibility {
    Visible,
    Hidden,
}

/// The flicker period of a grid: its width times its height, divided by
/// five and rounded down.
pub open spec fn period_of(dims: GridDimensions) -> int {
    (dims.width * dims.height) as int / 5
}

/// A cube whose phase is a multiple of the period is hidden.
pub open spec fn hidden_at(period: int, phase: int) -> bool {
    phase % period == 0
}

/// What the flicker rule makes of a cube with the given phase.
pub open spec fn visibility_at(dims: GridDimensions, phase: int) -> Visibility {
    if hidden_at(period_of(dims), phase) {
        Visibility::Hidden
    } else {
        Visibility::Visible
    }
}

/// The flicker period of a grid.
pub fn flicker_period(dims: GridDimensions) -> (period: u64)
    ensures
        period == period_of(dims),
{
    assert(dims.width as u64 * dims.height as u64 <= u64::MAX) by (nonlinear_arith)
        requires
            dims.width <= u32::MAX,
            dims.height <= u32::MAX,
    ;
    (dims.width as u64 * dims.height as u64) / 5
}

proof fn lemma_multiple_of_negation(period: int, phase: int)
    requires
        period > 0,
    ensures
        hidden_at(period, phase) == hidden_at(period, -phase),
{
    let q = phase / period;
    let r = phase % period;
    assert(phase == q * period + r && 0 <= r < period) by (nonlinear_arith)
        requires
            period > 0,
            q == phase / period,
            r == phase % period,
    ;
    if r == 0 {
        assert(-phase == (-q) * period + 0) by (nonlinear_arith)
            requires
                phase == q * period,
        ;
        lemma_fundamental_div_mod_converse(-phase, period, -q, 0);
    } else {
        assert(-phase == (-q - 1) * period + (period - r)) by (nonlinear_arith)
            requires
                phase == q * period + r,
        ;
        lemma_fundamental_div_mod_converse(-phase, period, -q - 1, period - r);
    }
}

/// Whether a cube with the given phase is hidden: the phase is a multiple of
/// the period.
pub fn is_hidden(period: u64, phase: i32) -> (hidden: bool)
    requires
        period > 0,
    ensures
        hidden == hidden_at(period as int, phase as int),
{
    let magnitude: u64 = if phase < 0 {
        (-(phase as i64)) as u64
    } else {
        phase as u64
    };
    proof {
        lemma_multiple_of_negation(period as int, phase as int);
    }
    magnitude % period == 0
}

/// The flicker rule for one cube: hidden when its phase is a multiple of the
/// grid's period, visible otherwise. The result depends on the grid and the
/// phase alone.
pub fn flicker_visibility(dims: GridDimensions, phase: i32) -> (v: Visibility)
    requires
        period_of(dims) > 0,
    ensures
        v == visibility_at(dims, phase as int),
{
    let period = flicker_period(dims);
    if is_hidden(period, phase) {
        Visibility::Hidden
    } else {
        Visibility::Visible
    }
}

/// The flicker rule repeats itself: a phase and the phase one period later
/// give the same visibility.
pub proof fn lemma_flicker_periodic(dims: GridDimensions, phase: int)
    requires
        period_of(dims) > 0,
        phase >= 0,
    ensures
        visibility_at(dims, phase) == visibility_at(dims, phase + period_of(dims)),
{
    lemma_mod_add_multiples_vanish(phase, period_of(dims));
}

/// The flicker rule keeps no state: two evaluations on the same grid and
/// phase agree.
pub proof fn lemma_flicker_repeatable(dims: GridDimensions, phase: int, first: Visibility, second: Visibility)
    requires
        first == visibility_at(dims, phase),
        second == visibility_at(dims, phase),
    ensures
        first == second,
{
}

} // verus!
