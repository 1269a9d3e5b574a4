//! Turning the transitions of a line into half-cells.
use vstd::prelude::*;
use crate::decoders::engines::biphase_audio::clock_recovery;
use crate::decoders::engines::biphase_audio::transitions;
use crate::decoders::error::{DecoderError, ErrorView};

verus! {

/// The gaps between neighboring transitions.
pub open spec fn gaps_of(transitions: Seq<(u64, bool)>) -> Seq<u64> {
    if transitions.len() == 0 {
        Seq::empty()
    } else {
        Seq::new(
            (transitions.len() - 1) as nat,
            |i: int| (transitions[i + 1].0 - transitions[i].0) as u64,
        )
    }
}

/// Whether the gap after transition `i` is no biphase gap but a stream
/// discontinuity, e.g. the idle line before a capture's first frame. A
/// four-half-period run is retained because it can be a malformed preamble
/// header rather than an idle gap.
pub open spec fn is_break(transitions: Seq<(u64, bool)>, half_period: u64, i: int) -> bool {
    transitions[i + 1].0 - transitions[i].0 > 4 * half_period
}

/// The time of the latest transition, up to transition `i`, that begins the
/// stream anew: the first one, or one after a discontinuity.
pub open spec fn origin(transitions: Seq<(u64, bool)>, half_period: u64, i: int) -> u64
    decreases i,
{
    if i <= 0 || is_break(transitions, half_period, i - 1) {
        transitions[i].0
    } else {
        origin(transitions, half_period, i - 1)
    }
}

/// The time, or the largest time where it lies beyond that.
pub open spec fn saturated(time: int) -> u64 {
    if time > u64::MAX {
        u64::MAX
    } else {
        time as u64
    }
}

/// The number of half-cells from the origin up to transition `i`, rounded.
///
/// The number up to each transition is rounded rather than each gap
/// independently: a clocked transmitter can shift a run of edges by half a
/// cell, and rounding the cumulative count keeps that shift from adding an
/// extra half-cell and losing bit alignment.
pub open spec fn cells_before(transitions: Seq<(u64, bool)>, half_period: u64, i: int) -> u64 {
    saturated(
        transitions[i].0 - origin(transitions, half_period, i) + half_period / 2,
    ) / half_period
}

/// `count` half-cells of one level, beginning at `start`.
pub open spec fn run(start: u64, level: bool, count: nat, half_period: u64) -> Seq<(u64, bool)> {
    Seq::new(count, |k: int| (saturated(start + k * half_period), level))
}

/// The half-cells of the gap after transition `i`. A discontinuity has none.
pub open spec fn gap_cells(transitions: Seq<(u64, bool)>, half_period: u64, i: int) -> Seq<
    (u64, bool),
> {
    if is_break(transitions, half_period, i) {
        Seq::empty()
    } else {
        let count = cells_before(transitions, half_period, i + 1) - cells_before(
            transitions,
            half_period,
            i,
        );
        run(transitions[i].0, transitions[i].1, count as nat, half_period)
    }
}

/// The half-cells of the first `n` gaps.
pub open spec fn cells_of(transitions: Seq<(u64, bool)>, half_period: u64, n: nat) -> Seq<
    (u64, bool),
>
    decreases n,
{
    if n == 0 {
        Seq::empty()
    } else {
        cells_of(transitions, half_period, (n - 1) as nat) + gap_cells(
            transitions,
            half_period,
            n - 1,
        )
    }
}

/// What the transitions of a line decode to: its half-cells and the recovered
/// half period.
pub open spec fn recovered(transitions: Seq<(u64, bool)>) -> Result<
    (Seq<(u64, bool)>, u64),
    ErrorView,
> {
    if transitions.len() < 2 {
        Err(ErrorView::NotEnoughTransitions)
    } else {
        match clock_recovery::half_period_of(gaps_of(transitions)) {
            None => Err(ErrorView::NoBitClock),
            Some(half_period) => Ok(
                (
                    cells_of(transitions, half_period, (transitions.len() - 1) as nat),
                    half_period,
                ),
            ),
        }
    }
}

/// The origin is no later than the transition, and the count of half-cells
/// does not fall from one transition to the next.
proof fn counts_grow(transitions: Seq<(u64, bool)>, half_period: u64, i: int)
    requires
        transitions::times_ascend(transitions),
        half_period > 0,
        0 <= i,
        i + 1 < transitions.len(),
    ensures
        origin(transitions, half_period, i) <= transitions[i].0,
        !is_break(transitions, half_period, i) ==> cells_before(transitions, half_period, i)
            <= cells_before(transitions, half_period, i + 1),
{
    origin_before(transitions, half_period, i);
    assert(transitions[i].0 <= transitions[i + 1].0);
    if !is_break(transitions, half_period, i) {
        let from = origin(transitions, half_period, i);
        let a = saturated(transitions[i].0 - from + half_period / 2);
        let b = saturated(transitions[i + 1].0 - from + half_period / 2);
        vstd::arithmetic::div_mod::lemma_div_is_ordered(a as int, b as int, half_period as int);
    }
}

proof fn origin_before(transitions: Seq<(u64, bool)>, half_period: u64, i: int)
    requires
        transitions::times_ascend(transitions),
        0 <= i < transitions.len(),
    ensures
        origin(transitions, half_period, i) <= transitions[i].0,
    decreases i,
{
    if i > 0 && !is_break(transitions, half_period, i - 1) {
        origin_before(transitions, half_period, i - 1);
        assert(transitions[i - 1].0 <= transitions[i].0);
    }
}

fn gaps_between(transitions: &Vec<(u64, bool)>) -> (gaps: Vec<u64>)
    requires
        transitions::times_ascend(transitions@),
    ensures
        gaps@ == gaps_of(transitions@),
{
    let mut gaps: Vec<u64> = Vec::new();
    let mut i: usize = 1;
    while i < transitions.len()
        invariant
            transitions::times_ascend(transitions@),
            1 <= i,
            i <= transitions.len() || transitions.len() == 0,
            transitions.len() > 0 ==> gaps@ == gaps_of(transitions@).take(i - 1),
            transitions.len() == 0 ==> gaps.len() == 0,
        decreases transitions.len() - i,
    {
        assert(transitions@[i - 1].0 <= transitions@[i as int].0);
        gaps.push(transitions[i].0 - transitions[i - 1].0);
        assert(gaps@ =~= gaps_of(transitions@).take(i as int));
        i += 1;
    }
    assert(gaps@ =~= gaps_of(transitions@));
    gaps
}

fn push_run(
    half_cells: &mut Vec<(u64, bool)>,
    start: u64,
    level: bool,
    count: u64,
    half_period: u64,
)
    ensures
        final(half_cells)@ == old(half_cells)@ + run(start, level, count as nat, half_period),
{
    let mut step: u64 = 0;
    let mut time: u64 = start;
    let ghost before = half_cells@;
    while step < count
        invariant
            step <= count,
            time == saturated(start + step * half_period),
            half_cells@ == before + run(start, level, step as nat, half_period),
        decreases count - step,
    {
        half_cells.push((time, level));
        assert(half_cells@ =~= before + run(start, level, (step + 1) as nat, half_period));
        assert((step + 1) * half_period == step * half_period + half_period) by (nonlinear_arith);
        assert(step * half_period >= 0) by (nonlinear_arith);
        time = time.saturating_add(half_period);
        step += 1;
    }
}

/// Turn line transitions into half-cell levels.
///
/// Biphase-mark gaps are one, two, or (in preambles) three half-bit periods.
/// Gaps longer than four half periods are dropped so that an idle line before
/// or between frames does not abort the decode.
pub fn decode_half_cells(line: &Vec<(u64, bool)>) -> (result: Result<
    (Vec<(u64, bool)>, u64),
    DecoderError,
>)
    requires
        transitions::times_ascend(line@),
    ensures
        match (result, recovered(line@)) {
            (Ok((half_cells, half_period)), Ok((cells, period))) => half_cells@ == cells
                && half_period == period && half_period > 0,
            (Err(error), Err(fault)) => error@ == fault,
            _ => false,
        },
{
    if line.len() < 2 {
        return Err(DecoderError::NotEnoughTransitions);
    }
    let gaps = gaps_between(line);
    let half_period = match clock_recovery::estimate_half_period(&gaps) {
        Some(half_period) => half_period,
        None => {
            return Err(DecoderError::NoBitClock);
        },
    };
    let mut half_cells: Vec<(u64, bool)> = Vec::new();
    let mut start: u64 = line[0].0;
    let mut previous: u64 = 0;
    let mut i: usize = 0;
    proof {
        vstd::arithmetic::div_mod::lemma_small_mod((half_period / 2) as nat, half_period as nat);
        vstd::arithmetic::div_mod::lemma_basic_div((half_period / 2) as int, half_period as int);
    }
    while i + 1 < line.len()
        invariant
            transitions::times_ascend(line@),
            half_period > 0,
            half_period / 2 / half_period == 0,
            i < line.len(),
            start == origin(line@, half_period, i as int),
            previous == cells_before(line@, half_period, i as int),
            half_cells@ == cells_of(line@, half_period, i as nat),
        decreases line.len() - i,
    {
        proof {
            counts_grow(line@, half_period, i as int);
            assert(line@[i as int].0 <= line@[i + 1].0);
        }
        let gap: u64 = line[i + 1].0 - line[i].0;
        if gap as u128 > 4 * (half_period as u128) {
            start = line[i + 1].0;
            previous = 0;
            assert(half_cells@ =~= cells_of(line@, half_period, (i + 1) as nat));
        } else {
            let count: u64 = (line[i + 1].0 - start).saturating_add(half_period / 2) / half_period;
            push_run(&mut half_cells, line[i].0, line[i].1, count - previous, half_period);
            previous = count;
        }
        i += 1;
    }
    Ok((half_cells, half_period))
}

} // verus!
