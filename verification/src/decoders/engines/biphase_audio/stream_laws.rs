//! What holds of a stream that is sent and decoded again.
use vstd::prelude::*;
#[allow(unused_imports)]
use vstd::arithmetic::power2;
use crate::bits;
use crate::decoders::engines::biphase_audio;
use crate::decoders::engines::biphase_audio::blocks;
use crate::decoders::engines::biphase_audio::channel_status;
use crate::decoders::engines::biphase_audio::framing;
use crate::decoders::engines::biphase_audio::framing::{HeaderKind, Preamble, SubframeView};
use crate::decoders::engines::biphase_audio::half_cells;
use crate::decoders::engines::biphase_audio::line_laws;
use crate::decoders::engines::biphase_audio::rows;
use crate::decoders::engines::biphase_audio::transitions;
use crate::decoders::engines::biphase_audio::ParamsView;
use crate::decoders::input;
use crate::decoders::input::SignalView;
#[allow(unused_imports)]
use crate::decoders::error::ErrorView;
use crate::decoders::value::{NumericRange, RowView};

verus! {

/// The time of half-cell `i`.
pub open spec fn cell_time(start: u64, half_period: u64, i: int) -> u64 {
    (start + i * half_period) as u64
}

/// Whether `n` half-cells, and one more, fit in the range of times.
pub open spec fn times_fit(start: u64, half_period: u64, n: int) -> bool {
    &&& half_period > 0
    &&& start + (n + 1) * half_period <= u64::MAX
}

/// The half-cells of levels that are sent one after another.
pub open spec fn cells_sent(levels: Seq<bool>, start: u64, half_period: u64) -> Seq<(u64, bool)> {
    Seq::new(levels.len(), |i: int| (cell_time(start, half_period, i), levels[i]))
}

/// The transitions that the first `n` levels make: one for each level that
/// differs from the one before it.
pub open spec fn changes_sent(levels: Seq<bool>, start: u64, half_period: u64, n: nat) -> Seq<
    (u64, bool),
>
    decreases n,
{
    if n == 0 {
        Seq::empty()
    } else {
        let before = changes_sent(levels, start, half_period, (n - 1) as nat);
        if n == 1 || levels[n - 1] != levels[n - 2] {
            before.push((cell_time(start, half_period, n - 1), levels[n - 1]))
        } else {
            before
        }
    }
}

/// The transitions of the first `n` levels, and the one that ends the last.
pub open spec fn closed(levels: Seq<bool>, start: u64, half_period: u64, n: nat) -> Seq<
    (u64, bool),
> {
    changes_sent(levels, start, half_period, n).push(
        (cell_time(start, half_period, n as int), !levels[n - 1]),
    )
}

/// The line while levels are sent: its transitions, up to the one that ends the
/// last half-cell.
pub open spec fn line_sent(levels: Seq<bool>, start: u64, half_period: u64) -> Seq<(u64, bool)> {
    closed(levels, start, half_period, levels.len())
}

/// Where the run of equal levels begins that level `n - 1` belongs to.
pub open spec fn run_start(levels: Seq<bool>, n: nat) -> int
    decreases n,
{
    if n <= 1 || levels[n - 1] != levels[n - 2] {
        n - 1
    } else {
        run_start(levels, (n - 1) as nat)
    }
}

/// Whether no more than three neighboring levels are equal.
pub open spec fn short_runs(levels: Seq<bool>) -> bool {
    forall|i: int|
        0 <= i && i + 3 < levels.len() ==> !(#[trigger] levels[i] == levels[i + 1] && levels[i]
            == levels[i + 2] && levels[i] == levels[i + 3])
}

/// Whether a run of exactly `length` equal levels begins at `at`.
pub open spec fn is_run(levels: Seq<bool>, at: int, length: int) -> bool {
    &&& 0 <= at
    &&& 0 < length
    &&& at + length < levels.len()
    &&& at > 0 ==> levels[at - 1] != levels[at]
    &&& forall|k: int| at <= k < at + length ==> #[trigger] levels[k] == levels[at]
    &&& levels[at + length] != levels[at]
}

pub proof fn time_grows(start: u64, half_period: u64, n: int, i: int)
    requires
        times_fit(start, half_period, n),
        0 <= i <= n,
    ensures
        cell_time(start, half_period, i) == start + i * half_period,
        start + i * half_period + half_period <= u64::MAX,
{
    assert((i + 1) * half_period <= (n + 1) * half_period) by (nonlinear_arith)
        requires
            0 <= i <= n,
            half_period > 0,
    ;
    assert((i + 1) * half_period == i * half_period + half_period) by (nonlinear_arith);
    assert(i * half_period >= 0) by (nonlinear_arith)
        requires
            0 <= i,
    ;
}

proof fn last_change(levels: Seq<bool>, start: u64, half_period: u64, n: nat)
    requires
        0 < n <= levels.len(),
    ensures
        0 <= run_start(levels, n) < n,
        changes_sent(levels, start, half_period, n).len() > 0,
        changes_sent(levels, start, half_period, n).last() == (
            cell_time(start, half_period, run_start(levels, n)),
            levels[n - 1],
        ),
        forall|k: int| run_start(levels, n) <= k < n ==> #[trigger] levels[k] == levels[n - 1],
        run_start(levels, n) > 0 ==> levels[run_start(levels, n) - 1] != levels[n - 1],
    decreases n,
{
    if n > 1 && levels[n - 1] == levels[n - 2] {
        last_change(levels, start, half_period, (n - 1) as nat);
    }
}

/// Sending a line and reading its half-cells at a known half period gives the
/// levels back.
proof fn closed_cells(levels: Seq<bool>, start: u64, half_period: u64, n: nat)
    requires
        times_fit(start, half_period, levels.len() as int),
        0 < n <= levels.len(),
    ensures
        exact_cells(
            closed(levels, start, half_period, n),
            half_period,
            changes_sent(levels, start, half_period, n).len(),
        ) == cells_sent(levels, start, half_period).take(n as int),
    decreases n,
{
    let line = closed(levels, start, half_period, n);
    let changes = changes_sent(levels, start, half_period, n);
    let m = changes.len();
    last_change(levels, start, half_period, n);
    let from = run_start(levels, n);
    let all = cells_sent(levels, start, half_period);
    time_grows(start, half_period, levels.len() as int, n as int);
    time_grows(start, half_period, levels.len() as int, from);
    assert(line[m - 1] == changes.last());
    assert(line[m as int].0 - line[m - 1].0 == (n - from) * half_period) by {
        assert(n * half_period - from * half_period == (n - from) * half_period)
            by (nonlinear_arith);
    }
    vstd::arithmetic::div_mod::lemma_div_multiples_vanish(n - from, half_period as int);
    assert((n - from) * half_period == half_period * (n - from)) by (nonlinear_arith);
    let last = half_cells::run(line[m - 1].0, line[m - 1].1, (n - from) as nat, half_period);
    assert forall|k: int| 0 <= k < n - from implies #[trigger] last[k] == all[from + k] by {
        time_grows(start, half_period, levels.len() as int, from + k);
        assert((from + k) * half_period == from * half_period + k * half_period)
            by (nonlinear_arith);
        assert(levels[from + k] == levels[n - 1]);
    }
    if from == 0 {
        first_run(levels, start, half_period, n);
        assert(exact_cells(line, half_period, 0) =~= Seq::<(u64, bool)>::empty());
        assert(exact_cells(line, half_period, m) =~= all.take(n as int));
    } else {
        closed_cells(levels, start, half_period, from as nat);
        before_run(levels, start, half_period, n);
        let earlier = closed(levels, start, half_period, from as nat);
        let shorter = changes_sent(levels, start, half_period, from as nat);
        assert(changes =~= shorter.push(changes.last()));
        same_exact_cells(earlier, line, half_period, shorter.len());
        assert(exact_cells(line, half_period, m) =~= all.take(from) + last);
        assert(all.take(from) + last =~= all.take(n as int));
    }
}

proof fn first_run(levels: Seq<bool>, start: u64, half_period: u64, n: nat)
    requires
        0 < n <= levels.len(),
        run_start(levels, n) == 0,
    ensures
        changes_sent(levels, start, half_period, n).len() == 1,
    decreases n,
{
    if n > 1 {
        if levels[n - 1] == levels[n - 2] {
            first_run(levels, start, half_period, (n - 1) as nat);
        }
    } else {
        assert(changes_sent(levels, start, half_period, 0).len() == 0);
    }
}

proof fn before_run(levels: Seq<bool>, start: u64, half_period: u64, n: nat)
    requires
        0 < n <= levels.len(),
        run_start(levels, n) > 0,
    ensures
        ({
            let from = run_start(levels, n);
            changes_sent(levels, start, half_period, n) == changes_sent(
                levels,
                start,
                half_period,
                from as nat,
            ).push((cell_time(start, half_period, from), levels[from]))
        }),
    decreases n,
{
    if n > 1 && levels[n - 1] == levels[n - 2] {
        before_run(levels, start, half_period, (n - 1) as nat);
    }
}

/// The half-cells of the first `n` gaps, where each lasts a whole number of
/// half periods.
pub open spec fn exact_cells(line: Seq<(u64, bool)>, half_period: u64, n: nat) -> Seq<(u64, bool)>
    decreases n,
{
    if n == 0 {
        Seq::empty()
    } else {
        let units = (line[n as int].0 - line[n - 1].0) / half_period as int;
        exact_cells(line, half_period, (n - 1) as nat) + half_cells::run(
            line[n - 1].0,
            line[n - 1].1,
            units as nat,
            half_period,
        )
    }
}

proof fn same_exact_cells(a: Seq<(u64, bool)>, b: Seq<(u64, bool)>, half_period: u64, n: nat)
    requires
        n < a.len(),
        n < b.len(),
        forall|i: int| 0 <= i < n ==> a[i] == b[i],
        a[n as int].0 == b[n as int].0,
    ensures
        exact_cells(a, half_period, n) == exact_cells(b, half_period, n),
    decreases n,
{
    if n > 0 {
        assert(a[n - 1] == b[n - 1]);
        same_exact_cells(a, b, half_period, (n - 1) as nat);
    }
}

/// The place of a transition on the grid of half periods.
pub open spec fn places_of(line: Seq<(u64, bool)>, half_period: u64) -> Seq<nat> {
    Seq::new(line.len(), |i: int| ((line[i].0 - line[0].0) / half_period as int) as nat)
}

/// Whether every gap of a line lasts one, two or three half periods.
pub open spec fn clean_line(line: Seq<(u64, bool)>, half_period: u64) -> bool {
    forall|i: int| 0 <= i && i + 1 < line.len() ==> #[trigger] clean_gap(line, half_period, i)
}

/// Whether the gap behind transition `i` lasts one, two or three half periods.
pub open spec fn clean_gap(line: Seq<(u64, bool)>, half_period: u64, i: int) -> bool {
    line[i].0 <= line[i + 1].0 && line_laws::is_clean(half_cells::gaps_of(line)[i], half_period)
}

proof fn exact_is_on_grid(line: Seq<(u64, bool)>, half_period: u64)
    requires
        half_period > 0,
        line.len() > 0,
        clean_line(line, half_period),
        line.last().0 + half_period <= u64::MAX,
    ensures
        line_laws::on_grid(line, places_of(line, half_period), half_period),
        forall|i: int|
            0 <= i < line.len() ==> (#[trigger] line[i]).0 - line[0].0 == places_of(
                line,
                half_period,
            )[i] * half_period && line[i].0 <= line.last().0,
{
    let places = places_of(line, half_period);
    let gaps = half_cells::gaps_of(line);
    assert(0int / half_period as int == 0) by (nonlinear_arith)
        requires
            half_period > 0,
    ;
    assert forall|i: int| 0 <= i < line.len() implies (#[trigger] line[i]).0 - line[0].0
        == places[i] * half_period && line[i].0 <= line.last().0 by {
        exact_place(line, half_period, i);
        exact_to_end(line, half_period, i);
    }
    assert forall|i: int| 0 <= i < line.len() - 1 implies #[trigger] line_laws::no_break(
        line,
        half_period,
        i,
    ) by {
        assert(clean_gap(line, half_period, i));
    }
    assert forall|i: int| 0 <= i < line.len() implies 0 <= #[trigger] line[i].0 - line[0].0
        - places[i] * half_period + half_period / 2 < half_period by {
        assert(line[i].0 - line[0].0 == places[i] * half_period);
    }
    assert forall|i: int| 0 <= i < line.len() implies (#[trigger] line[i].0) - line[0].0
        + half_period / 2 <= u64::MAX by {
        exact_to_end(line, half_period, i);
    }
}

proof fn exact_place(line: Seq<(u64, bool)>, half_period: u64, i: int)
    requires
        half_period > 0,
        clean_line(line, half_period),
        0 <= i < line.len(),
    ensures
        line[i].0 >= line[0].0,
        line[i].0 - line[0].0 == places_of(line, half_period)[i] * half_period,
    decreases i,
{
    let p = half_period as int;
    if i == 0 {
        assert(0int / p == 0) by (nonlinear_arith)
            requires
                p > 0,
        ;
        assert(0 * p == 0);
    } else {
        exact_place(line, half_period, i - 1);
        let gap = half_cells::gaps_of(line)[i - 1];
        assert(clean_gap(line, half_period, i - 1));
        let units: int = if gap == half_period {
            1
        } else if gap == 2 * half_period {
            2
        } else {
            3
        };
        let before = places_of(line, half_period)[i - 1] as int;
        assert(gap == line[i].0 - line[i - 1].0);
        assert(gap == units * p);
        assert((before + units) * p == before * p + units * p) by (nonlinear_arith);
        assert(line[i].0 - line[0].0 == (before + units) * p);
        vstd::arithmetic::div_mod::lemma_div_multiples_vanish(before + units, p);
        assert(p * (before + units) == (before + units) * p) by (nonlinear_arith);
    }
}

pub proof fn exact_to_end(line: Seq<(u64, bool)>, half_period: u64, i: int)
    requires
        clean_line(line, half_period),
        0 <= i < line.len(),
    ensures
        line[i].0 <= line.last().0,
    decreases line.len() - i,
{
    if i + 1 < line.len() {
        assert(clean_gap(line, half_period, i));
        exact_to_end(line, half_period, i + 1);
    }
}

proof fn by_place_is_exact(line: Seq<(u64, bool)>, half_period: u64, n: nat)
    requires
        half_period > 0,
        n < line.len(),
        clean_line(line, half_period),
    ensures
        line_laws::cells_by_place(line, places_of(line, half_period), half_period, n)
            == exact_cells(line, half_period, n),
    decreases n,
{
    if n > 0 {
        by_place_is_exact(line, half_period, (n - 1) as nat);
        exact_place(line, half_period, n - 1);
        exact_place(line, half_period, n as int);
        let p = half_period as int;
        let a = places_of(line, half_period)[n - 1] as int;
        let b = places_of(line, half_period)[n as int] as int;
        assert((b - a) * p == b * p - a * p) by (nonlinear_arith);
        vstd::arithmetic::div_mod::lemma_div_multiples_vanish(b - a, p);
        assert(p * (b - a) == (b - a) * p) by (nonlinear_arith);
    }
}

proof fn gaps_are_clean(levels: Seq<bool>, start: u64, half_period: u64, n: nat)
    requires
        times_fit(start, half_period, levels.len() as int),
        short_runs(levels),
        0 < n <= levels.len(),
    ensures
        clean_line(closed(levels, start, half_period, n), half_period),
    decreases n,
{
    let line = closed(levels, start, half_period, n);
    let changes = changes_sent(levels, start, half_period, n);
    let gaps = half_cells::gaps_of(line);
    last_change(levels, start, half_period, n);
    let from = run_start(levels, n);
    time_grows(start, half_period, levels.len() as int, n as int);
    time_grows(start, half_period, levels.len() as int, from);
    // The last gap.
    assert(n - from <= 3) by {
        if n - from > 3 {
            assert(levels[n - 4] == levels[n - 1]);
            assert(levels[n - 3] == levels[n - 1]);
            assert(levels[n - 2] == levels[n - 1]);
            assert(levels[n - 4] == levels[n - 4 + 1]);
        }
    }
    let m = changes.len();
    assert(line[m - 1] == changes.last());
    assert(n * half_period - from * half_period == (n - from) * half_period) by (nonlinear_arith);
    assert(line[m as int].0 - line[m - 1].0 == (n - from) * half_period);
    assert(line_laws::is_clean(gaps[m - 1], half_period)) by {
        if n - from == 1 {
            assert(1 * half_period == half_period);
        } else if n - from == 2 {
            assert((n - from) * half_period == 2 * half_period);
        } else {
            assert((n - from) * half_period == 3 * half_period);
        }
    }
    if from > 0 {
        gaps_are_clean(levels, start, half_period, from as nat);
        before_run(levels, start, half_period, n);
        let earlier = closed(levels, start, half_period, from as nat);
        let shorter = changes_sent(levels, start, half_period, from as nat);
        assert forall|i: int| 0 <= i && i + 1 < line.len() implies #[trigger] clean_gap(
            line,
            half_period,
            i,
        ) by {
            if i < m - 1 {
                assert(clean_gap(earlier, half_period, i));
                assert(line[i] == earlier[i]);
                assert(line[i + 1].0 == earlier[i + 1].0);
                assert(half_cells::gaps_of(earlier)[i] == gaps[i]);
            }
        }
    } else {
        first_run(levels, start, half_period, n);
        assert forall|i: int| 0 <= i && i + 1 < line.len() implies #[trigger] clean_gap(
            line,
            half_period,
            i,
        ) by {
            assert(i == m - 1);
        }
    }
}

/// The transitions up to some level begin those up to a later one.
proof fn changes_extend(levels: Seq<bool>, start: u64, half_period: u64, m: nat, n: nat)
    requires
        m <= n <= levels.len(),
    ensures
        changes_sent(levels, start, half_period, m).len() <= changes_sent(
            levels,
            start,
            half_period,
            n,
        ).len(),
        forall|i: int|
            0 <= i < changes_sent(levels, start, half_period, m).len() ==> changes_sent(
                levels,
                start,
                half_period,
                m,
            )[i] == #[trigger] changes_sent(levels, start, half_period, n)[i],
    decreases n,
{
    if m < n {
        changes_extend(levels, start, half_period, m, (n - 1) as nat);
    }
}

/// A run of levels is a gap between transitions.
proof fn run_is_gap(levels: Seq<bool>, start: u64, half_period: u64, at: int, length: int)
    requires
        times_fit(start, half_period, levels.len() as int),
        is_run(levels, at, length),
    ensures
        exists|i: int|
            0 <= i < half_cells::gaps_of(line_sent(levels, start, half_period)).len()
                && #[trigger] half_cells::gaps_of(line_sent(levels, start, half_period))[i]
                == length * half_period,
{
    let line = line_sent(levels, start, half_period);
    let end = (at + length) as nat;
    let changes = changes_sent(levels, start, half_period, end);
    last_change(levels, start, half_period, end);
    run_begins_at(levels, at, length);
    let next = changes_sent(levels, start, half_period, end + 1);
    assert(levels[end as int] != levels[end - 1]) by {
        assert(levels[end - 1] == levels[at]);
    }
    assert(next == changes.push((cell_time(start, half_period, end as int), levels[end as int])));
    changes_extend(levels, start, half_period, end + 1, levels.len());
    let i = changes.len() - 1;
    assert(next[i] == changes.last());
    assert(line[i] == next[i]);
    assert(line[i + 1] == next[i + 1]);
    time_grows(start, half_period, levels.len() as int, at);
    time_grows(start, half_period, levels.len() as int, end as int);
    assert(end * half_period - at * half_period == length * half_period) by (nonlinear_arith)
        requires
            end == at + length,
    ;
    assert(half_cells::gaps_of(line)[i] == length * half_period);
}

proof fn run_begins_at(levels: Seq<bool>, at: int, length: int)
    requires
        is_run(levels, at, length),
    ensures
        run_start(levels, (at + length) as nat) == at,
    decreases length,
{
    if length == 1 {
        assert(levels[at] == levels[at]);
    } else {
        assert(levels[at + length - 1] == levels[at]);
        assert(levels[at + length - 2] == levels[at]);
        run_begins_within(levels, at, length, length - 1);
    }
}

proof fn run_begins_within(levels: Seq<bool>, at: int, length: int, upto: int)
    requires
        is_run(levels, at, length),
        1 <= upto < length,
    ensures
        run_start(levels, (at + upto) as nat) == at,
        run_start(levels, (at + upto + 1) as nat) == at,
    decreases upto,
{
    assert(levels[at + upto] == levels[at]);
    assert(levels[at + upto - 1] == levels[at]);
    if upto > 1 {
        run_begins_within(levels, at, length, upto - 1);
    }
    assert(run_start(levels, (at + upto) as nat) == at);
    let n = (at + upto + 1) as nat;
    assert(levels[n - 1] == levels[n - 2]);
    assert(run_start(levels, n) == run_start(levels, (n - 1) as nat));
}

/// The line that levels are sent on has its transitions exactly on the grid of
/// half periods, and its half-cells are the levels, each at its time.
pub proof fn sent_line_is_exact(levels: Seq<bool>, start: u64, half_period: u64)
    requires
        levels.len() > 0,
        times_fit(start, half_period, levels.len() as int),
        short_runs(levels),
    ensures
        ({
            let line = line_sent(levels, start, half_period);
            let places = places_of(line, half_period);
            &&& line.len() > 1
            &&& line[0].0 == start
            &&& clean_line(line, half_period)
            &&& line_laws::on_grid(line, places, half_period)
            &&& forall|i: int|
                0 <= i < line.len() ==> (#[trigger] line[i]).0 - start == places[i] * half_period
            &&& line_laws::cells_by_place(line, places, half_period, (line.len() - 1) as nat)
                == cells_sent(levels, start, half_period)
        }),
{
    let n = levels.len();
    let line = line_sent(levels, start, half_period);
    last_change(levels, start, half_period, n);
    gaps_are_clean(levels, start, half_period, n);
    changes_extend(levels, start, half_period, 1, n);
    let first = changes_sent(levels, start, half_period, 1);
    assert(first.len() == 1 && first[0].0 == cell_time(start, half_period, 0)) by {
        assert(changes_sent(levels, start, half_period, 0).len() == 0);
    }
    assert(line[0] == first[0]);
    time_grows(start, half_period, n as int, 0);
    assert(0 * half_period == 0);
    time_grows(start, half_period, n as int, n as int);
    exact_is_on_grid(line, half_period);
    assert forall|i: int| 0 <= i < line.len() implies (#[trigger] line[i]).0 - start == places_of(
        line,
        half_period,
    )[i] * half_period by {
        exact_place(line, half_period, i);
    }
    closed_cells(levels, start, half_period, n);
    by_place_is_exact(line, half_period, (line.len() - 1) as nat);
    assert(cells_sent(levels, start, half_period).take(n as int) =~= cells_sent(
        levels,
        start,
        half_period,
    ));
}

proof fn sent_gaps(levels: Seq<bool>, start: u64, half_period: u64, single: int, triple: int)
    requires
        times_fit(start, half_period, levels.len() as int),
        short_runs(levels),
        is_run(levels, single, 1),
        is_run(levels, triple, 3),
    ensures
        line_laws::is_stream(half_cells::gaps_of(line_sent(levels, start, half_period)), half_period),
        line_laws::all_clean(half_cells::gaps_of(line_sent(levels, start, half_period)), half_period),
{
    let line = line_sent(levels, start, half_period);
    let gaps = half_cells::gaps_of(line);
    sent_line_is_exact(levels, start, half_period);
    run_is_gap(levels, start, half_period, single, 1);
    run_is_gap(levels, start, half_period, triple, 3);
    let one = choose|i: int|
        0 <= i < gaps.len() && #[trigger] gaps[i] == 1 * half_period;
    assert(gaps[one] == half_period);
    assert(gaps.contains(half_period));
    let three = choose|i: int| 0 <= i < gaps.len() && #[trigger] gaps[i] == 3 * half_period;
    assert(gaps[three] == 3 * half_period);
    assert forall|i: int| 0 <= i < gaps.len() implies line_laws::is_clean(
        #[trigger] gaps[i],
        half_period,
    ) by {
        assert(clean_gap(line, half_period, i));
    }
}

/// Sending levels and recovering the half-cells from the line gives the levels
/// back, each at its time: the half period is found, and so is every half-cell.
pub proof fn levels_are_recovered(
    levels: Seq<bool>,
    start: u64,
    half_period: u64,
    single: int,
    triple: int,
)
    requires
        times_fit(start, half_period, levels.len() as int),
        short_runs(levels),
        is_run(levels, single, 1),
        is_run(levels, triple, 3),
    ensures
        half_cells::recovered(line_sent(levels, start, half_period)) == Ok::<
            (Seq<(u64, bool)>, u64),
            ErrorView,
        >((cells_sent(levels, start, half_period), half_period)),
{
    let line = line_sent(levels, start, half_period);
    sent_gaps(levels, start, half_period, single, triple);
    line_laws::stream_tells_half_period(half_cells::gaps_of(line), half_period);
    sent_line_is_exact(levels, start, half_period);
    line_laws::jitter_keeps_cells(
        line,
        places_of(line, half_period),
        half_period,
        (line.len() - 1) as nat,
    );
}

/// The edges of a bit clock that has one at the start of every half-cell.
pub open spec fn clock_sent(n: nat, start: u64, half_period: u64) -> Seq<(u64, bool)> {
    Seq::new(n, |i: int| (cell_time(start, half_period, i), i % 2 == 1))
}

proof fn level_while_sent(levels: Seq<bool>, start: u64, half_period: u64, n: nat, i: int)
    requires
        times_fit(start, half_period, levels.len() as int),
        0 < n <= levels.len(),
        0 <= i < n,
    ensures
        transitions::level_at(
            changes_sent(levels, start, half_period, n),
            cell_time(start, half_period, i),
        ) == levels[i],
    decreases n,
{
    let time = cell_time(start, half_period, i);
    let changes = changes_sent(levels, start, half_period, n);
    last_change(levels, start, half_period, n);
    let from = run_start(levels, n);
    time_grows(start, half_period, levels.len() as int, i);
    time_grows(start, half_period, levels.len() as int, from);
    if i >= from {
        assert(from * half_period <= i * half_period) by (nonlinear_arith)
            requires
                from <= i,
        ;
        assert(levels[i] == levels[n - 1]);
    } else {
        before_run(levels, start, half_period, n);
        level_while_sent(levels, start, half_period, from as nat, i);
        assert(i * half_period < from * half_period) by (nonlinear_arith)
            requires
                i < from,
                half_period > 0,
        ;
        let shorter = changes_sent(levels, start, half_period, from as nat);
        last_change(levels, start, half_period, from as nat);
        assert(changes.drop_last() =~= shorter);
    }
}

/// Sampling the line with a bit clock gives the levels back, each at its time.
pub proof fn clock_samples_levels(levels: Seq<bool>, start: u64, half_period: u64)
    requires
        times_fit(start, half_period, levels.len() as int),
        levels.len() > 0,
    ensures
        transitions::sampled(
            line_sent(levels, start, half_period),
            clock_sent(levels.len(), start, half_period),
        ) == cells_sent(levels, start, half_period),
{
    let line = line_sent(levels, start, half_period);
    let n = levels.len();
    let changes = changes_sent(levels, start, half_period, n);
    last_change(levels, start, half_period, n);
    assert(line.drop_last() =~= changes);
    assert forall|i: int| 0 <= i < n implies transitions::level_at(
        line,
        cell_time(start, half_period, i),
    ) == levels[i] by {
        level_while_sent(levels, start, half_period, n, i);
        time_grows(start, half_period, n as int, i);
        time_grows(start, half_period, n as int, n as int);
        assert(i * half_period < n * half_period) by (nonlinear_arith)
            requires
                i < n,
                half_period > 0,
        ;
    }
    assert(transitions::sampled(line, clock_sent(n, start, half_period)) =~= cells_sent(
        levels,
        start,
        half_period,
    ));
}

/// A subframe to send: its preamble, and the bits of slots 4-31.
#[verifier::ext_equal]
pub struct Sent {
    pub preamble: Preamble,
    pub bits: Seq<bool>,
}

/// The level of the line behind the first `n` bits, which are sent on a line at
/// `level`: every bit changes it at its beginning, and a one in the middle too.
pub open spec fn level_behind(level: bool, bits: Seq<bool>, n: nat) -> bool
    decreases n,
{
    if n == 0 {
        level
    } else {
        level_behind(level, bits, (n - 1) as nat) != !bits[n - 1]
    }
}

/// The half-cells of a subframe that is sent on a line at `level`.
pub open spec fn subframe_levels(level: bool, sent: Sent) -> Seq<bool> {
    let coded = framing::pattern(sent.preamble)[7] != level;
    Seq::new(
        64,
        |i: int|
            if i < 8 {
                framing::pattern(sent.preamble)[i] != level
            } else if i % 2 == 0 {
                !level_behind(coded, sent.bits, ((i - 8) / 2) as nat)
            } else {
                level_behind(coded, sent.bits, ((i - 8) / 2 + 1) as nat)
            },
    )
}

/// The level of the line before subframe `n`. It is low before the first one.
pub open spec fn level_before(stream: Seq<Sent>, n: nat) -> bool
    decreases n,
{
    if n == 0 {
        false
    } else {
        subframe_levels(level_before(stream, (n - 1) as nat), stream[n - 1])[63]
    }
}

/// The half-cells of a stream of subframes.
pub open spec fn stream_levels(stream: Seq<Sent>) -> Seq<bool> {
    Seq::new(
        64 * stream.len(),
        |i: int|
            subframe_levels(level_before(stream, (i / 64) as nat), stream[i / 64])[i % 64],
    )
}

/// Whether every subframe has its 28 bits.
pub open spec fn well_formed(stream: Seq<Sent>) -> bool {
    forall|k: int| 0 <= k < stream.len() ==> (#[trigger] stream[k]).bits.len() == 28
}

/// The subframes that a stream is decoded to, with the times of its half-cells.
///
/// A subframe ends where the next one begins. With a bit clock, whose last edge
/// begins the last half-cell, the last subframe is shown up to that edge.
pub open spec fn subframes_sent(
    stream: Seq<Sent>,
    start: u64,
    half_period: u64,
    clocked: bool,
) -> Seq<SubframeView> {
    Seq::new(
        stream.len(),
        |k: int|
            SubframeView {
                header: HeaderKind::Standard(stream[k].preamble),
                channel: Some(framing::preamble_channel(stream[k].preamble)),
                bits: stream[k].bits,
                start: cell_time(start, half_period, 64 * k),
                end: if clocked && k + 1 == stream.len() {
                    cell_time(start, half_period, 64 * k + 63)
                } else {
                    cell_time(start, half_period, 64 * k + 64)
                },
            },
    )
}

/// The levels of a stream are those of its subframes.
pub proof fn levels_at(stream: Seq<Sent>, k: int, r: int)
    requires
        0 <= k < stream.len(),
        0 <= r < 64,
    ensures
        stream_levels(stream)[64 * k + r] == subframe_levels(
            level_before(stream, k as nat),
            stream[k],
        )[r],
{
    assert((64 * k + r) / 64 == k);
    assert((64 * k + r) % 64 == r);
}

/// Every bit begins with a change of the level, and so does every preamble.
proof fn boundaries_change(stream: Seq<Sent>, k: int, r: int)
    requires
        0 <= k < stream.len(),
        0 <= r < 64,
        (r == 0 && k > 0) || (r >= 8 && r % 2 == 0),
    ensures
        stream_levels(stream)[64 * k + r] != stream_levels(stream)[64 * k + r - 1],
{
    levels_at(stream, k, r);
    let level = level_before(stream, k as nat);
    if r == 0 {
        levels_at(stream, k - 1, 63);
        assert(64 * k + r - 1 == 64 * (k - 1) + 63);
        assert(framing::pattern(stream[k].preamble)[0]);
    } else {
        levels_at(stream, k, r - 1);
        let coded = framing::pattern(stream[k].preamble)[7] != level;
        if r == 8 {
            assert(level_behind(coded, stream[k].bits, 0) == coded);
        } else {
            assert((r - 1 - 8) / 2 + 1 == (r - 8) / 2);
        }
    }
}

proof fn stream_has_short_runs(stream: Seq<Sent>)
    ensures
        short_runs(stream_levels(stream)),
{
    let levels = stream_levels(stream);
    assert forall|i: int| 0 <= i && i + 3 < levels.len() implies !(#[trigger] levels[i]
        == levels[i + 1] && levels[i] == levels[i + 2] && levels[i] == levels[i + 3]) by {
        let k = i / 64;
        let r = i % 64;
        assert(i == 64 * k + r);
        if r <= 4 {
            levels_at(stream, k, r);
            levels_at(stream, k, r + 1);
            levels_at(stream, k, r + 2);
            levels_at(stream, k, r + 3);
            let pattern = framing::pattern(stream[k].preamble);
            assert(!(pattern[r] == pattern[r + 1] && pattern[r] == pattern[r + 2] && pattern[r]
                == pattern[r + 3])) by {
                if r == 0 {
                } else if r == 1 {
                } else if r == 2 {
                } else if r == 3 {
                } else {
                }
            }
        } else if r == 5 {
            boundaries_change(stream, k, 8);
        } else if r == 6 {
            boundaries_change(stream, k, 8);
        } else if r % 2 == 1 && r < 63 {
            boundaries_change(stream, k, r + 1);
        } else if r % 2 == 0 && r < 62 {
            boundaries_change(stream, k, r + 2);
        } else if r == 63 {
            boundaries_change(stream, k + 1, 0);
        } else {
            boundaries_change(stream, k + 1, 0);
        }
    }
}

/// Where the first subframe has a run of one and a run of three half-cells.
pub open spec fn single_run(preamble: Preamble) -> int {
    match preamble {
        Preamble::X => 6,
        Preamble::Y => 5,
        Preamble::Z => 3,
    }
}

proof fn stream_has_runs(stream: Seq<Sent>)
    requires
        stream.len() > 0,
    ensures
        is_run(stream_levels(stream), single_run(stream[0].preamble), 1),
        is_run(stream_levels(stream), 0, 3),
{
    let levels = stream_levels(stream);
    let pattern = framing::pattern(stream[0].preamble);
    assert forall|r: int| 0 <= r < 8 implies #[trigger] levels[r] == pattern[r] by {
        levels_at(stream, 0, r);
        assert(64 * 0 + r == r);
    }
    assert(levels[0] && levels[1] && levels[2] && !levels[3]);
    assert(levels[4] == pattern[4]);
    assert(levels[5] == pattern[5]);
    assert(levels[6] == pattern[6]);
    assert(levels[7] == pattern[7]);
}

/// Whether half-cells have the levels, one after another, whenever they begin.
pub open spec fn carries(cells: Seq<(u64, bool)>, levels: Seq<bool>) -> bool {
    &&& cells.len() == levels.len()
    &&& forall|i: int| 0 <= i < cells.len() ==> (#[trigger] cells[i]).1 == levels[i]
}

proof fn subframe_is_found(stream: Seq<Sent>, cells: Seq<(u64, bool)>, k: int)
    requires
        well_formed(stream),
        carries(cells, stream_levels(stream)),
        0 <= k < stream.len(),
    ensures
        framing::preamble_at(cells, 64 * k) == Some(stream[k].preamble),
        framing::slots_at(cells, 64 * k) == stream[k].bits,
{
    let sent = stream[k];
    let level = level_before(stream, k as nat);
    assert forall|r: int| 0 <= r < 8 implies (#[trigger] cells[64 * k + r]).1 == (framing::pattern(
        sent.preamble,
    )[r] != level) by {
        levels_at(stream, k, r);
    }
    assert(framing::sends(cells, 64 * k, sent.preamble, level));
    assert(framing::has_preamble(cells, 64 * k, sent.preamble));
    let other = framing::preamble_at(cells, 64 * k);
    assert(other is Some);
    framing::preambles_are_distinct(cells, 64 * k, other.unwrap(), sent.preamble);
    assert forall|j: int| 0 <= j < 28 implies (#[trigger] framing::slots_at(
        cells,
        64 * k,
    )[j]) == sent.bits[j] by {
        levels_at(stream, k, 8 + 2 * j);
        levels_at(stream, k, 9 + 2 * j);
        assert(64 * k + (8 + 2 * j) == 64 * k + 8 + 2 * j);
        assert(64 * k + (9 + 2 * j) == 64 * k + 9 + 2 * j);
        assert((8 + 2 * j - 8) / 2 == j);
        assert((9 + 2 * j - 8) / 2 == j);
        assert((8 + 2 * j) % 2 == 0 && (9 + 2 * j) % 2 == 1);
    }
    assert(framing::slots_at(cells, 64 * k) =~= sent.bits);
}

/// The subframes that a stream is decoded to, with the times of the half-cells
/// that were read.
pub open spec fn subframes_timed(
    stream: Seq<Sent>,
    cells: Seq<(u64, bool)>,
    half_period: Option<u64>,
) -> Seq<SubframeView> {
    Seq::new(
        stream.len(),
        |k: int|
            SubframeView {
                header: HeaderKind::Standard(stream[k].preamble),
                channel: Some(framing::preamble_channel(stream[k].preamble)),
                bits: stream[k].bits,
                start: cells[64 * k].0,
                end: framing::end_at(cells, 64 * k, half_period),
            },
    )
}

proof fn scan_finds_subframes(
    stream: Seq<Sent>,
    cells: Seq<(u64, bool)>,
    half_period: Option<u64>,
    k: nat,
    expected: Option<u8>,
)
    requires
        well_formed(stream),
        carries(cells, stream_levels(stream)),
        k <= stream.len(),
    ensures
        framing::scan(cells, half_period, 64 * k as int, expected, Seq::empty())
            == subframes_timed(stream, cells, half_period).skip(k as int),
    decreases stream.len() - k,
{
    let all = subframes_timed(stream, cells, half_period);
    if k == stream.len() {
        assert(framing::unanchored(cells, half_period, Seq::empty(), 0) =~= all.skip(k as int));
    } else {
        let preamble = stream[k as int].preamble;
        let channel = framing::preamble_channel(preamble);
        let index = 64 * k as int;
        subframe_is_found(stream, cells, k as int);
        scan_finds_subframes(
            stream,
            cells,
            half_period,
            k + 1,
            Some(framing::other_channel(channel)),
        );
        assert(64 * (k + 1) == index + 64);
        let here = all[k as int];
        assert(!Seq::<int>::empty().contains(index - 64));
        assert(framing::leading_up(cells, half_period, Seq::empty(), index, channel) =~= Seq::<
            SubframeView,
        >::empty());
        assert(Seq::<SubframeView>::empty().push(here) + all.skip(k as int + 1) =~= all.skip(
            k as int,
        ));
    }
}

/// The subframes of half-cells that carry a stream are the ones that were sent,
/// with the bits that they were sent with, whenever the half-cells begin.
pub proof fn subframes_are_found(
    stream: Seq<Sent>,
    cells: Seq<(u64, bool)>,
    half_period: Option<u64>,
)
    requires
        well_formed(stream),
        carries(cells, stream_levels(stream)),
    ensures
        framing::subframes_of(cells, half_period) == subframes_timed(stream, cells, half_period),
{
    scan_finds_subframes(stream, cells, half_period, 0, None);
    let all = subframes_timed(stream, cells, half_period);
    assert(all.skip(0) =~= all);
}

/// The half period, where it was recovered from the line itself.
pub open spec fn known_period(half_period: u64, clocked: bool) -> Option<u64> {
    if clocked {
        None
    } else {
        Some(half_period)
    }
}

/// The subframes of the half-cells of a stream are the ones that were sent, each
/// at the time at which it was sent.
pub proof fn sent_subframes_are_found(
    stream: Seq<Sent>,
    start: u64,
    half_period: u64,
    clocked: bool,
)
    requires
        well_formed(stream),
        times_fit(start, half_period, 64 * stream.len() as int),
    ensures
        framing::subframes_of(
            cells_sent(stream_levels(stream), start, half_period),
            known_period(half_period, clocked),
        ) == subframes_sent(stream, start, half_period, clocked),
{
    let cells = cells_sent(stream_levels(stream), start, half_period);
    let period = known_period(half_period, clocked);
    let found = subframes_timed(stream, cells, period);
    let all = subframes_sent(stream, start, half_period, clocked);
    subframes_are_found(stream, cells, period);
    let n = 64 * stream.len() as int;
    assert forall|k: int| 0 <= k < stream.len() implies #[trigger] found[k] == all[k] by {
        time_grows(start, half_period, n, 64 * k);
        time_grows(start, half_period, n, 64 * k + 63);
        time_grows(start, half_period, n, 64 * k + 64);
        assert((64 * k + 64) * half_period == (64 * k + 63) * half_period + half_period)
            by (nonlinear_arith);
    }
    assert(found =~= all);
}

/// The half-cells of a stream, and its half period, are recovered from the line
/// that it is sent on.
pub proof fn stream_is_recovered(stream: Seq<Sent>, start: u64, half_period: u64)
    requires
        stream.len() > 0,
        times_fit(start, half_period, 64 * stream.len() as int),
    ensures
        half_cells::recovered(line_sent(stream_levels(stream), start, half_period)) == Ok::<
            (Seq<(u64, bool)>, u64),
            ErrorView,
        >((cells_sent(stream_levels(stream), start, half_period), half_period)),
{
    stream_has_short_runs(stream);
    stream_has_runs(stream);
    levels_are_recovered(
        stream_levels(stream),
        start,
        half_period,
        single_run(stream[0].preamble),
        0,
    );
}

/// The line that a stream is sent on tells its half period.
pub proof fn stream_has_clean_gaps(stream: Seq<Sent>, start: u64, half_period: u64)
    requires
        stream.len() > 0,
        times_fit(start, half_period, 64 * stream.len() as int),
    ensures
        short_runs(stream_levels(stream)),
        line_laws::is_stream(
            half_cells::gaps_of(line_sent(stream_levels(stream), start, half_period)),
            half_period,
        ),
        line_laws::all_clean(
            half_cells::gaps_of(line_sent(stream_levels(stream), start, half_period)),
            half_period,
        ),
{
    stream_has_short_runs(stream);
    stream_has_runs(stream);
    sent_gaps(
        stream_levels(stream),
        start,
        half_period,
        single_run(stream[0].preamble),
        0,
    );
}

/// Whether the first input with a role is a 1-bit signal that shows a line.
pub open spec fn shows_line(
    inputs: Seq<SignalView>,
    role: Seq<char>,
    line: Seq<(u64, bool)>,
) -> bool {
    match input::input_for(inputs, role, 0) {
        Some(signal) => signal.num_bits == Some(1u32) && transitions::settled(
            transitions::known_levels(signal.changes),
        ) == line,
        None => false,
    }
}

/// A stream that is sent on the data line is decoded to exactly its subframes:
/// the bit clock is recovered, every preamble is found, and every bit is read
/// as it was sent, at the time at which it was sent.
pub proof fn stream_is_decoded(
    params: ParamsView,
    inputs: Seq<SignalView>,
    stream: Seq<Sent>,
    start: u64,
    half_period: u64,
)
    requires
        stream.len() > 0,
        well_formed(stream),
        times_fit(start, half_period, 64 * stream.len() as int),
        shows_line(inputs, params.data, line_sent(stream_levels(stream), start, half_period)),
        input::input_for(inputs, params.bitclk, 0) is None,
    ensures
        biphase_audio::decoded_rows(params, inputs) == Ok::<Seq<RowView>, ErrorView>(
            rows::rows_of(params, subframes_sent(stream, start, half_period, false)),
        ),
{
    stream_is_recovered(stream, start, half_period);
    sent_subframes_are_found(stream, start, half_period, false);
    let found = subframes_sent(stream, start, half_period, false);
    assert(found.len() == stream.len());
}

/// With a bit clock that has an edge at the start of every half-cell, a stream
/// that is sent on the data line is decoded to exactly its subframes.
pub proof fn clocked_stream_is_decoded(
    params: ParamsView,
    inputs: Seq<SignalView>,
    stream: Seq<Sent>,
    start: u64,
    half_period: u64,
)
    requires
        stream.len() > 0,
        well_formed(stream),
        times_fit(start, half_period, 64 * stream.len() as int),
        shows_line(inputs, params.data, line_sent(stream_levels(stream), start, half_period)),
        shows_line(inputs, params.bitclk, clock_sent(64 * stream.len(), start, half_period)),
        transitions::all_known(input::input_for(inputs, params.bitclk, 0).unwrap().changes),
    ensures
        biphase_audio::decoded_rows(params, inputs) == Ok::<Seq<RowView>, ErrorView>(
            rows::rows_of(params, subframes_sent(stream, start, half_period, true)),
        ),
{
    clock_samples_levels(stream_levels(stream), start, half_period);
    sent_subframes_are_found(stream, start, half_period, true);
    let found = subframes_sent(stream, start, half_period, true);
    assert(found.len() == stream.len());
}

/// The polarity of the stream does not matter to its subframes: the three
/// preambles are recognized in either polarity, and a bit is a change of the
/// level.
pub proof fn polarity_keeps_subframes(cells: Seq<(u64, bool)>, half_period: Option<u64>)
    ensures
        framing::subframes_of(line_laws::inverted(cells), half_period) == framing::subframes_of(
            cells,
            half_period,
        ),
{
    polarity_keeps_scan(cells, half_period, 0, None, Seq::empty());
}

proof fn polarity_turns_preamble(
    cells: Seq<(u64, bool)>,
    index: int,
    preamble: Preamble,
    previous: bool,
)
    ensures
        framing::sends(line_laws::inverted(cells), index, preamble, previous) == framing::sends(
            cells,
            index,
            preamble,
            !previous,
        ),
{
    let other = line_laws::inverted(cells);
    if 0 <= index && index + 8 <= cells.len() {
        let pattern = framing::pattern(preamble);
        if framing::sends(other, index, preamble, previous) {
            assert forall|k: int| 0 <= k < 8 implies (#[trigger] cells[index + k]).1 == (pattern[k]
                != !previous) by {
                assert(other[index + k].1 == (pattern[k] != previous));
            }
        }
        if framing::sends(cells, index, preamble, !previous) {
            assert forall|k: int| 0 <= k < 8 implies (#[trigger] other[index + k]).1 == (pattern[k]
                != previous) by {
                assert(cells[index + k].1 == (pattern[k] != !previous));
            }
        }
    }
}

proof fn polarity_keeps_headers(cells: Seq<(u64, bool)>, index: int)
    ensures
        framing::preamble_at(line_laws::inverted(cells), index) == framing::preamble_at(
            cells,
            index,
        ),
        framing::unknown_at(line_laws::inverted(cells), index) == framing::unknown_at(cells, index),
{
    polarity_turns_preamble(cells, index, Preamble::X, false);
    polarity_turns_preamble(cells, index, Preamble::X, true);
    polarity_turns_preamble(cells, index, Preamble::Y, false);
    polarity_turns_preamble(cells, index, Preamble::Y, true);
    polarity_turns_preamble(cells, index, Preamble::Z, false);
    polarity_turns_preamble(cells, index, Preamble::Z, true);
}

proof fn polarity_keeps_subframe(
    cells: Seq<(u64, bool)>,
    half_period: Option<u64>,
    index: int,
    header: HeaderKind,
    channel: Option<u8>,
)
    requires
        0 <= index,
        index + 64 <= cells.len(),
    ensures
        framing::subframe_at(line_laws::inverted(cells), half_period, index, header, channel)
            == framing::subframe_at(cells, half_period, index, header, channel),
{
    assert(framing::slots_at(line_laws::inverted(cells), index) =~= framing::slots_at(
        cells,
        index,
    ));
}

spec fn fit(cells: Seq<(u64, bool)>, candidates: Seq<int>) -> bool {
    forall|i: int|
        0 <= i < candidates.len() ==> 0 <= #[trigger] candidates[i] && candidates[i] + 64
            <= cells.len()
}

proof fn polarity_keeps_leading_up(
    cells: Seq<(u64, bool)>,
    half_period: Option<u64>,
    candidates: Seq<int>,
    anchor: int,
    channel: u8,
)
    requires
        fit(cells, candidates),
    ensures
        framing::leading_up(
            line_laws::inverted(cells),
            half_period,
            candidates,
            anchor,
            channel,
        ) == framing::leading_up(cells, half_period, candidates, anchor, channel),
    decreases anchor,
{
    if anchor >= 64 && candidates.contains(anchor - 64) {
        let i = choose|i: int| 0 <= i < candidates.len() && candidates[i] == anchor - 64;
        assert(candidates[i] + 64 <= cells.len());
        let before = framing::other_channel(channel);
        polarity_keeps_leading_up(cells, half_period, candidates, anchor - 64, before);
        polarity_keeps_subframe(
            cells,
            half_period,
            anchor - 64,
            HeaderKind::Unknown,
            Some(before),
        );
    }
}

proof fn polarity_keeps_unanchored(
    cells: Seq<(u64, bool)>,
    half_period: Option<u64>,
    candidates: Seq<int>,
    n: nat,
)
    requires
        fit(cells, candidates),
        n <= candidates.len(),
    ensures
        framing::unanchored(line_laws::inverted(cells), half_period, candidates, n)
            == framing::unanchored(cells, half_period, candidates, n),
    decreases n,
{
    if n > 0 {
        polarity_keeps_unanchored(cells, half_period, candidates, (n - 1) as nat);
        assert(candidates[n - 1] + 64 <= cells.len());
        polarity_keeps_subframe(
            cells,
            half_period,
            candidates[n - 1],
            HeaderKind::Unknown,
            None,
        );
    }
}

proof fn polarity_keeps_scan(
    cells: Seq<(u64, bool)>,
    half_period: Option<u64>,
    index: int,
    expected: Option<u8>,
    candidates: Seq<int>,
)
    requires
        0 <= index,
        fit(cells, candidates),
    ensures
        framing::scan(line_laws::inverted(cells), half_period, index, expected, candidates)
            == framing::scan(cells, half_period, index, expected, candidates),
    decreases cells.len() - index,
{
    let other = line_laws::inverted(cells);
    if index + 64 > cells.len() {
        polarity_keeps_unanchored(cells, half_period, candidates, candidates.len());
    } else {
        polarity_keeps_headers(cells, index);
        match (framing::preamble_at(cells, index), expected) {
            (Some(preamble), _) => {
                let channel = framing::preamble_channel(preamble);
                polarity_keeps_leading_up(cells, half_period, candidates, index, channel);
                polarity_keeps_subframe(
                    cells,
                    half_period,
                    index,
                    HeaderKind::Standard(preamble),
                    Some(channel),
                );
                polarity_keeps_scan(
                    cells,
                    half_period,
                    index + 64,
                    Some(framing::other_channel(channel)),
                    Seq::empty(),
                );
            },
            (None, Some(channel)) if framing::unknown_at(cells, index) => {
                polarity_keeps_subframe(
                    cells,
                    half_period,
                    index,
                    HeaderKind::Unknown,
                    Some(channel),
                );
                polarity_keeps_scan(
                    cells,
                    half_period,
                    index + 64,
                    Some(framing::other_channel(channel)),
                    candidates,
                );
            },
            _ => {
                let next = if framing::unknown_at(cells, index) {
                    candidates.push(index)
                } else {
                    candidates
                };
                polarity_keeps_scan(cells, half_period, index + 1, None, next);
            },
        }
    }
}

/// The bit of a sample that stands in a slot.
pub open spec fn sample_bit(sample: int, word_bits: u32, index: int) -> bool {
    let first = 24 - word_bits;
    first <= index < 24 && bits::low_bits(sample, word_bits as nat) as int / power2::pow2(
        (index - first) as nat,
    ) as int % 2 == 1
}

/// Slots 4-27 of a subframe that carries a sample: its most significant bit in
/// slot 27, and nothing below its least significant one.
pub open spec fn sample_slots(sample: int, word_bits: u32) -> Seq<bool> {
    Seq::new(24, |index: int| sample_bit(sample, word_bits, index))
}

proof fn word_is_prefix(raw: int, slots: Seq<bool>, first: int, word_bits: u32, count: nat)
    requires
        0 <= raw,
        count <= word_bits,
        forall|k: int|
            0 <= k < word_bits ==> #[trigger] slots[first + k] == (raw / power2::pow2(
                k as nat,
            ) as int % 2 == 1),
    ensures
        rows::word_value(slots, first, count) == raw % power2::pow2(count) as int,
    decreases count,
{
    if count == 0 {
        power2::lemma2_to64();
    } else {
        let m = (count - 1) as nat;
        word_is_prefix(raw, slots, first, word_bits, m);
        bits::pow2_next(m);
        let p = power2::pow2(m) as int;
        assert(slots[first + m as int] == (raw / p % 2 == 1));
        vstd::arithmetic::div_mod::lemma_mod_breakdown(raw, p, 2);
        assert(p * 2 == power2::pow2(count));
        assert(p * (raw / p % 2) == (if raw / p % 2 == 1 {
            p
        } else {
            0
        })) by (nonlinear_arith)
            requires
                raw / p % 2 == 0 || raw / p % 2 == 1,
        ;
    }
}

/// A sample that is placed in the slots of a subframe is read back, signed or
/// not, for every word length that a subframe can carry.
pub proof fn sample_reads_back(sample: int, word_bits: u32, signed: bool, slots: Seq<bool>)
    requires
        16 <= word_bits <= 24,
        ({
            let range = NumericRange { bits: word_bits, signed };
            range.min() <= sample <= range.max()
        }),
        slots.len() == 28,
        slots.take(24) == sample_slots(sample, word_bits),
    ensures
        rows::sample_of(slots, word_bits, signed) == sample,
{
    let count = word_bits as nat;
    let first = 24 - word_bits;
    let modulus = power2::pow2(count) as int;
    let raw = bits::low_bits(sample, count) as int;
    bits::pow2_next((word_bits - 1) as nat);
    if sample < 0 {
        vstd::arithmetic::div_mod::lemma_mod_add_multiples_vanish(sample, modulus);
        vstd::arithmetic::div_mod::lemma_small_mod((sample + modulus) as nat, modulus as nat);
    } else {
        vstd::arithmetic::div_mod::lemma_small_mod(sample as nat, modulus as nat);
    }
    assert forall|k: int| 0 <= k < word_bits implies #[trigger] slots[first + k] == (raw
        / power2::pow2(k as nat) as int % 2 == 1) by {
        assert(slots.take(24)[first + k] == slots[first + k]);
    }
    word_is_prefix(raw, slots, first, word_bits, count);
    vstd::arithmetic::div_mod::lemma_small_mod(raw as nat, modulus as nat);
}

/// Whether subframes are frames of two, channel A before channel B, of which
/// the first begins a block and no other does.
pub open spec fn is_block(subframes: Seq<SubframeView>) -> bool {
    &&& subframes.len() == 384
    &&& blocks::begins_block(subframes[0])
    &&& forall|i: int|
        0 <= i < subframes.len() ==> blocks::on_channel(#[trigger] subframes[i], i % 2 == 1)
    &&& forall|i: int| 0 < i < subframes.len() ==> !blocks::begins_block(#[trigger] subframes[i])
}

proof fn block_begins(subframes: Seq<SubframeView>, n: int)
    requires
        is_block(subframes),
        0 <= n <= 384,
    ensures
        blocks::block_begin(subframes, n) == (if n == 0 {
            None
        } else {
            Some(0int)
        }),
        blocks::count_errors(subframes, n).len() == 0,
    decreases n,
{
    if n > 0 {
        block_begins(subframes, n - 1);
        if n > 1 {
            assert(!blocks::begins_block(subframes[n - 1]));
        }
    }
}

proof fn block_bits(subframes: Seq<SubframeView>, n: int)
    requires
        is_block(subframes),
        0 <= n <= 384,
    ensures
        blocks::status_bits(subframes, 0, n, false) == Seq::new(
            ((n + 1) / 2) as nat,
            |f: int| subframes[2 * f].bits[26],
        ),
        blocks::status_bits(subframes, 0, n, true) == Seq::new(
            (n / 2) as nat,
            |f: int| subframes[2 * f + 1].bits[26],
        ),
    decreases n,
{
    let a = blocks::status_bits(subframes, 0, n, false);
    let b = blocks::status_bits(subframes, 0, n, true);
    if n > 0 {
        block_bits(subframes, n - 1);
        assert(blocks::on_channel(subframes[n - 1], (n - 1) % 2 == 1));
    }
    assert(a =~= Seq::new(((n + 1) / 2) as nat, |f: int| subframes[2 * f].bits[26]));
    assert(b =~= Seq::new((n / 2) as nat, |f: int| subframes[2 * f + 1].bits[26]));
}

proof fn no_block_yet(subframes: Seq<SubframeView>, n: int)
    requires
        is_block(subframes),
        0 <= n < 384,
    ensures
        blocks::blocks_of(subframes, n).len() == 0,
    decreases n,
{
    if n > 0 {
        no_block_yet(subframes, n - 1);
        block_begins(subframes, n);
        block_bits(subframes, n);
    }
}

/// A block of 192 frames gives one channel status, without an error. Bit `f` of
/// the status of either channel is the one that frame `f` carries.
pub proof fn block_is_collected(subframes: Seq<SubframeView>)
    requires
        is_block(subframes),
    ensures
        blocks::block_errors(subframes).len() == 0,
        blocks::blocks_of(subframes, 384) == seq![
            blocks::Block {
                start: subframes[0].start,
                end: subframes[383].end,
                status_a: channel_status::status_of(
                    blocks::packed(Seq::new(192, |f: int| subframes[2 * f].bits[26])),
                ),
                status_b: channel_status::status_of(
                    blocks::packed(Seq::new(192, |f: int| subframes[2 * f + 1].bits[26])),
                ),
            },
        ],
{
    block_begins(subframes, 384);
    block_bits(subframes, 384);
    block_bits(subframes, 383);
    no_block_yet(subframes, 383);
    let found = blocks::blocks_of(subframes, 384);
    assert(blocks::blocks_of(subframes, 383) =~= Seq::<blocks::Block>::empty());
    assert(found == blocks::blocks_of(subframes, 383).push(blocks::block_of(subframes, 0, 384)));
    assert(Seq::new(192, |f: int| subframes[2 * f].bits[26]) =~= blocks::status_bits(
        subframes,
        0,
        384,
        false,
    ));
    assert(Seq::new(192, |f: int| subframes[2 * f + 1].bits[26]) =~= blocks::status_bits(
        subframes,
        0,
        384,
        true,
    ));
    assert(found =~= seq![blocks::block_of(subframes, 0, 384)]);
}

/// The polarity of the data line does not matter to what is decoded, with a bit
/// clock or without one.
pub proof fn polarity_keeps_rows(
    params: ParamsView,
    inputs: Seq<SignalView>,
    turned: Seq<SignalView>,
)
    requires
        input::input_for(inputs, params.data, 0) is Some,
        input::input_for(turned, params.data, 0) is Some,
        ({
            let data = input::input_for(inputs, params.data, 0).unwrap();
            let other = input::input_for(turned, params.data, 0).unwrap();
            &&& other.variable == data.variable
            &&& other.num_bits == data.num_bits
            &&& transitions::settled(transitions::known_levels(other.changes))
                == line_laws::inverted(
                transitions::settled(transitions::known_levels(data.changes)),
            )
        }),
        input::input_for(turned, params.bitclk, 0) == input::input_for(inputs, params.bitclk, 0),
    ensures
        biphase_audio::decoded_rows(params, turned) == biphase_audio::decoded_rows(params, inputs),
{
    let data = input::input_for(inputs, params.data, 0).unwrap();
    let other = input::input_for(turned, params.data, 0).unwrap();
    let line = transitions::settled(transitions::known_levels(data.changes));
    line_laws::polarity_keeps_cells(line);
    if let Some(clock) = input::input_for(inputs, params.bitclk, 0) {
        let edges = transitions::settled(transitions::known_levels(clock.changes));
        if line.len() == 0 {
            assert(line_laws::inverted(line) =~= line);
        } else {
            polarity_keeps_samples(line, edges);
        }
    }
    let here = biphase_audio::half_cells_of(params, data, inputs);
    let there = biphase_audio::half_cells_of(params, other, turned);
    match here {
        Ok((cells, half_period)) => {
            polarity_keeps_subframes(cells, half_period);
            assert(there is Ok);
            assert(there->Ok_0.1 == half_period);
            assert(there->Ok_0.0 == cells || there->Ok_0.0 == line_laws::inverted(cells));
        },
        Err(_) => {
            assert(there == here);
        },
    }
}

proof fn polarity_turns_level(line: Seq<(u64, bool)>, time: u64)
    requires
        line.len() > 0,
    ensures
        transitions::level_at(line_laws::inverted(line), time) == !transitions::level_at(
            line,
            time,
        ),
    decreases line.len(),
{
    if line.len() > 1 {
        assert(line_laws::inverted(line).drop_last() =~= line_laws::inverted(line.drop_last()));
        polarity_turns_level(line.drop_last(), time);
    }
}

proof fn polarity_keeps_samples(line: Seq<(u64, bool)>, edges: Seq<(u64, bool)>)
    requires
        line.len() > 0,
    ensures
        transitions::sampled(line_laws::inverted(line), edges) == line_laws::inverted(
            transitions::sampled(line, edges),
        ),
{
    let there = transitions::sampled(line_laws::inverted(line), edges);
    let here = line_laws::inverted(transitions::sampled(line, edges));
    assert forall|i: int| 0 <= i < edges.len() implies #[trigger] there[i] == here[i] by {
        polarity_turns_level(line, edges[i].0);
    }
    assert(there =~= here);
}

/// A parity bit shows every single wrong bit: with one of its bits turned, a
/// subframe that had no parity error has one.
pub proof fn parity_shows_wrong_bit(bits: Seq<bool>, index: int)
    requires
        0 <= index < bits.len(),
    ensures
        (rows::ones(bits) % 2 == 1) != (rows::ones(bits.update(index, !bits[index])) % 2 == 1),
    decreases bits.len(),
{
    let turned = bits.update(index, !bits[index]);
    if index == bits.len() - 1 {
        assert(turned.drop_last() =~= bits.drop_last());
    } else {
        parity_shows_wrong_bit(bits.drop_last(), index);
        assert(turned.drop_last() =~= bits.drop_last().update(index, !bits.drop_last()[index]));
    }
}

/// A block that was received well has no errors: none of its headers is
/// unknown, every parity is even, and it has all its frames.
pub proof fn sound_block_has_no_errors(subframes: Seq<SubframeView>)
    requires
        is_block(subframes),
        forall|i: int|
            0 <= i < subframes.len() ==> (#[trigger] subframes[i]).header != HeaderKind::Unknown
                && rows::ones(subframes[i].bits) % 2 == 0,
    ensures
        rows::sorted(
            rows::faults(subframes, subframes.len()) + blocks::block_errors(subframes),
        ).len() == 0,
{
    block_is_collected(subframes);
    no_faults(subframes, subframes.len());
}

/// Subframes with known headers and even parity have no faults.
pub proof fn no_faults(subframes: Seq<SubframeView>, n: nat)
    requires
        n <= subframes.len(),
        forall|i: int|
            0 <= i < subframes.len() ==> (#[trigger] subframes[i]).header != HeaderKind::Unknown
                && rows::ones(subframes[i].bits) % 2 == 0,
    ensures
        rows::faults(subframes, n).len() == 0,
    decreases n,
{
    if n > 0 {
        no_faults(subframes, (n - 1) as nat);
        assert(subframes[n - 1].header != HeaderKind::Unknown);
    }
}

} // verus!
