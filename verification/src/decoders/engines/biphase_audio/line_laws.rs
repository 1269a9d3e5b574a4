//! What holds of recovering the bit clock and the half-cells of a line.
use vstd::prelude::*;
use crate::decoders::engines::biphase_audio::clock_recovery;
use crate::decoders::engines::biphase_audio::half_cells;
use crate::decoders::engines::biphase_audio::transitions;

verus! {

/// Whether a gap lasts exactly one, two or three half periods.
pub open spec fn is_clean(gap: u64, half_period: u64) -> bool {
    gap == half_period || gap == 2 * half_period || gap == 3 * half_period
}

/// Whether every gap lasts exactly one, two or three half periods.
pub open spec fn all_clean(gaps: Seq<u64>, half_period: u64) -> bool {
    forall|i: int| 0 <= i < gaps.len() ==> is_clean(#[trigger] gaps[i], half_period)
}

/// Whether a gap is so long that no candidate which explains it explains a gap
/// of up to three half periods too.
pub open spec fn is_idle(gap: u64, half_period: u64) -> bool {
    gap > 12 * half_period + 2
}

/// Whether the gaps are those of an undisturbed stream: all of them are clean,
/// but perhaps for an idle line before the first transition of the stream, and
/// there are gaps of one and of three half periods.
pub open spec fn is_stream(gaps: Seq<u64>, half_period: u64) -> bool {
    &&& half_period > 0
    &&& gaps.len() > 0
    &&& is_clean(gaps[0], half_period) || (is_idle(gaps[0], half_period) && clock_recovery::sample(
        gaps,
    ).len() >= 3)
    &&& forall|i: int| 0 < i < gaps.len() ==> is_clean(#[trigger] gaps[i], half_period)
    &&& gaps.contains(half_period)
    &&& exists|i: int| 0 <= i < gaps.len() && #[trigger] gaps[i] == 3 * half_period
}

proof fn score_bound(gaps: Seq<u64>, candidate: u64)
    ensures
        clock_recovery::score(gaps, candidate) <= gaps.len(),
    decreases gaps.len(),
{
    if gaps.len() > 0 {
        score_bound(gaps.drop_last(), candidate);
    }
}

proof fn full_score(gaps: Seq<u64>, candidate: u64)
    requires
        forall|i: int|
            0 <= i < gaps.len() ==> clock_recovery::units(#[trigger] gaps[i], candidate) is Some,
    ensures
        clock_recovery::score(gaps, candidate) == gaps.len(),
    decreases gaps.len(),
{
    if gaps.len() > 0 {
        let front = gaps.drop_last();
        assert forall|i: int| 0 <= i < front.len() implies clock_recovery::units(
            #[trigger] front[i],
            candidate,
        ) is Some by {
            assert(front[i] == gaps[i]);
        }
        full_score(front, candidate);
        assert(gaps.last() == gaps[gaps.len() - 1]);
    }
}

/// A score short of one gap, where only the first one is not explained.
proof fn score_but_first(gaps: Seq<u64>, candidate: u64)
    requires
        gaps.len() > 0,
        clock_recovery::units(gaps[0], candidate) is None,
        forall|i: int|
            0 < i < gaps.len() ==> clock_recovery::units(#[trigger] gaps[i], candidate) is Some,
    ensures
        clock_recovery::score(gaps, candidate) == gaps.len() - 1,
    decreases gaps.len(),
{
    let front = gaps.drop_last();
    if gaps.len() == 1 {
        assert(front =~= Seq::<u64>::empty());
        assert(clock_recovery::score(front, candidate) == 0);
        assert(gaps.last() == gaps[0]);
    } else {
        assert forall|i: int| 0 < i < front.len() implies clock_recovery::units(
            #[trigger] front[i],
            candidate,
        ) is Some by {
            assert(front[i] == gaps[i]);
        }
        assert(front[0] == gaps[0]);
        score_but_first(front, candidate);
        assert(gaps.last() == gaps[gaps.len() - 1]);
    }
}

/// A gap that is not explained costs a point.
proof fn missed_score(gaps: Seq<u64>, candidate: u64, missed: int)
    requires
        0 <= missed < gaps.len(),
        clock_recovery::units(gaps[missed], candidate) is None,
    ensures
        clock_recovery::score(gaps, candidate) < gaps.len(),
    decreases gaps.len(),
{
    let front = gaps.drop_last();
    score_bound(front, candidate);
    if missed < front.len() {
        assert(front[missed] == gaps[missed]);
        missed_score(front, candidate, missed);
    } else {
        assert(gaps.last() == gaps[missed]);
    }
}

/// Where the first gap and another one are not explained, two points are lost.
proof fn missed_two(gaps: Seq<u64>, candidate: u64, missed: int)
    requires
        0 < missed < gaps.len(),
        clock_recovery::units(gaps[0], candidate) is None,
        clock_recovery::units(gaps[missed], candidate) is None,
    ensures
        clock_recovery::score(gaps, candidate) < gaps.len() - 1,
    decreases gaps.len(),
{
    let front = gaps.drop_last();
    assert(front[0] == gaps[0]);
    if missed < front.len() {
        assert(front[missed] == gaps[missed]);
        missed_two(front, candidate, missed);
    } else {
        missed_score(front, candidate, 0);
        assert(gaps.last() == gaps[missed]);
    }
}

/// A candidate that explains none of the gaps but perhaps the first scores one
/// at most.
proof fn lonely_score(gaps: Seq<u64>, candidate: u64)
    requires
        forall|i: int|
            0 < i < gaps.len() ==> clock_recovery::units(#[trigger] gaps[i], candidate) is None,
    ensures
        clock_recovery::score(gaps, candidate) <= 1,
    decreases gaps.len(),
{
    if gaps.len() > 1 {
        let front = gaps.drop_last();
        assert forall|i: int| 0 < i < front.len() implies clock_recovery::units(
            #[trigger] front[i],
            candidate,
        ) is None by {
            assert(front[i] == gaps[i]);
        }
        lonely_score(front, candidate);
        assert(gaps.last() == gaps[gaps.len() - 1]);
    } else if gaps.len() == 1 {
        assert(clock_recovery::score(gaps.drop_last(), candidate) == 0);
    }
}

/// The sample holds the first gap, and otherwise gaps behind it.
proof fn sample_of_gaps(gaps: Seq<u64>, step: nat)
    requires
        gaps.len() > 0,
        step > 0,
    ensures
        ({
            let sampled = clock_recovery::every_nth(gaps, step);
            &&& 0 < sampled.len() <= gaps.len()
            &&& sampled[0] == gaps[0]
            &&& forall|k: int|
                0 < k < sampled.len() ==> exists|i: int|
                    0 < i < gaps.len() && #[trigger] gaps[i] == #[trigger] sampled[k]
        }),
    decreases gaps.len(),
{
    let sampled = clock_recovery::every_nth(gaps, step);
    if gaps.len() > step {
        let rest = gaps.skip(step as int);
        sample_of_gaps(rest, step);
        let more = clock_recovery::every_nth(rest, step);
        assert forall|k: int| 0 < k < sampled.len() implies exists|i: int|
            0 < i < gaps.len() && #[trigger] gaps[i] == #[trigger] sampled[k] by {
            assert(sampled[k] == more[k - 1]);
            if k == 1 {
                assert(gaps[step as int] == sampled[k]);
            } else {
                let i = choose|i: int|
                    0 < i < rest.len() && #[trigger] rest[i] == more[k - 1];
                assert(gaps[i + step] == sampled[k]);
            }
        }
    }
}

/// The half period of an undisturbed stream is recovered exactly, with or
/// without an idle line before it.
pub proof fn stream_tells_half_period(gaps: Seq<u64>, half_period: u64)
    requires
        is_stream(gaps, half_period),
    ensures
        clock_recovery::half_period_of(gaps) == Some(half_period),
{
    let p = half_period;
    let sampled = clock_recovery::sample(gaps);
    sample_of_gaps(gaps, clock_recovery::sample_step(gaps.len()));
    let idle = is_idle(gaps[0], p);
    assert forall|k: int| 0 < k < sampled.len() implies is_clean(#[trigger] sampled[k], p) by {
        let i = choose|i: int| 0 < i < gaps.len() && #[trigger] gaps[i] == sampled[k];
        assert(is_clean(gaps[i], p));
    }
    // The half period itself is a candidate.
    assert(clock_recovery::is_candidate(sampled, p)) by {
        if idle {
            assert(is_clean(sampled[1], p));
        } else {
            assert(is_clean(sampled[0], p));
        }
    }
    assert forall|i: int| 0 < i < gaps.len() implies clock_recovery::units(
        #[trigger] gaps[i],
        p,
    ) is Some by {
        assert(is_clean(gaps[i], p));
    }
    assert forall|k: int| 0 < k < sampled.len() implies clock_recovery::units(
        #[trigger] sampled[k],
        p,
    ) is Some by {
        assert(is_clean(sampled[k], p));
    }
    if idle {
        score_but_first(gaps, p);
        score_but_first(sampled, p);
    } else {
        full_score(gaps, p);
        full_score(sampled, p);
    }
    let one = choose|i: int| 0 <= i < gaps.len() && gaps[i] == p;
    assert(clock_recovery::units(gaps[one], p) == Some(1u64));
    assert(clock_recovery::has_unit_gap(gaps, p));
    assert forall|other: u64| #[trigger]
        clock_recovery::is_candidate(sampled, other) && other
            != p implies clock_recovery::preferred(gaps, p, other) by {
        half_period_is_preferred(gaps, p, other);
    }
    clock_recovery::half_period_is_unique(gaps, p);
}

proof fn half_period_is_preferred(gaps: Seq<u64>, p: u64, other: u64)
    requires
        is_stream(gaps, p),
        clock_recovery::has_unit_gap(gaps, p),
        ({
            let sampled = clock_recovery::sample(gaps);
            &&& 0 < sampled.len() <= gaps.len()
            &&& sampled[0] == gaps[0]
            &&& forall|k: int| 0 < k < sampled.len() ==> is_clean(#[trigger] sampled[k], p)
            &&& clock_recovery::is_candidate(sampled, other)
            &&& clock_recovery::score(gaps, p) == gaps.len() - (if is_idle(gaps[0], p) {
                1int
            } else {
                0int
            })
            &&& clock_recovery::score(sampled, p) == sampled.len() - (if is_idle(gaps[0], p) {
                1int
            } else {
                0int
            })
        }),
        other != p,
    ensures
        clock_recovery::preferred(gaps, p, other),
{
    let sampled = clock_recovery::sample(gaps);
    let idle = is_idle(gaps[0], p);
    let from = choose|i: int|
        0 <= i < sampled.len() && (other == #[trigger] sampled[i] || other == sampled[i] / 2
            || other == sampled[i] / 3);
    let three = choose|i: int| 0 <= i < gaps.len() && #[trigger] gaps[i] == 3 * p;
    score_bound(sampled, other);
    score_bound(gaps, other);
    if idle && from == 0 {
        // A candidate of the idle time explains nothing else.
        assert forall|k: int| 0 < k < sampled.len() implies clock_recovery::units(
            #[trigger] sampled[k],
            other,
        ) is None by {
            assert(is_clean(sampled[k], p));
        }
        lonely_score(sampled, other);
    } else {
        assert(is_clean(sampled[from], p));
        if idle {
            assert(clock_recovery::units(gaps[0], other) is None);
            missed_score(sampled, other, 0);
            missed_score(gaps, other, 0);
        }
        if clock_recovery::units(gaps[three], other) is None {
            if idle {
                missed_two(gaps, other, three);
            } else {
                missed_score(gaps, other, three);
            }
        } else {
            // Explaining a gap of three half periods takes a candidate close to
            // the half period or above it.
            assert(other > p);
        }
    }
}

proof fn sample_has_three(gaps: Seq<u64>)
    requires
        gaps.len() >= 3,
    ensures
        clock_recovery::sample(gaps).len() >= 3,
{
    let step = clock_recovery::sample_step(gaps.len());
    assert(0 < step && 2 * step < gaps.len());
    let second = gaps.skip(step as int);
    let third = second.skip(step as int);
    assert(clock_recovery::every_nth(third, step).len() > 0);
    assert(clock_recovery::every_nth(second, step).len() > 1);
}

/// An idle line before an undisturbed stream leaves it one.
pub proof fn idle_stream_is_stream(idle: u64, gaps: Seq<u64>, half_period: u64)
    requires
        is_stream(gaps, half_period),
        all_clean(gaps, half_period),
        is_idle(idle, half_period),
    ensures
        is_stream(seq![idle] + gaps, half_period),
{
    let longer = seq![idle] + gaps;
    let one = choose|i: int| 0 <= i < gaps.len() && gaps[i] == half_period;
    let three = choose|i: int| 0 <= i < gaps.len() && #[trigger] gaps[i] == 3 * half_period;
    assert(one != three);
    sample_has_three(longer);
    assert(longer[one + 1] == half_period);
    assert(longer[three + 1] == 3 * half_period);
    assert forall|i: int| 0 < i < longer.len() implies is_clean(
        #[trigger] longer[i],
        half_period,
    ) by {
        assert(longer[i] == gaps[i - 1]);
    }
}

/// Whether the transitions lie on a grid of half periods: transition `i` comes
/// `places[i]` half periods after the first one, up to half a period early and
/// less than that late, and none of them is a discontinuity.
pub open spec fn on_grid(
    line: Seq<(u64, bool)>,
    places: Seq<nat>,
    half_period: u64,
) -> bool {
    &&& half_period > 0
    &&& line.len() > 0
    &&& places.len() == line.len()
    &&& places[0] == 0
    &&& forall|i: int|
        0 <= i < line.len() ==> 0 <= #[trigger] line[i].0 - line[0].0 - places[i] * half_period
            + half_period / 2 < half_period
    &&& forall|i: int| 0 <= i < line.len() ==> (#[trigger] line[i].0) - line[0].0 + half_period / 2
        <= u64::MAX
    &&& forall|i: int| 0 <= i < line.len() - 1 ==> #[trigger] no_break(line, half_period, i)
}

/// Whether a gap lasts no more than four half periods.
pub open spec fn no_break(line: Seq<(u64, bool)>, half_period: u64, i: int) -> bool {
    line[i + 1].0 - line[i].0 <= 4 * half_period
}

/// The half-cells of the first `n` gaps, by the places of the transitions.
pub open spec fn cells_by_place(
    line: Seq<(u64, bool)>,
    places: Seq<nat>,
    half_period: u64,
    n: nat,
) -> Seq<(u64, bool)>
    decreases n,
{
    if n == 0 {
        Seq::empty()
    } else {
        cells_by_place(line, places, half_period, (n - 1) as nat) + half_cells::run(
            line[n - 1].0,
            line[n - 1].1,
            (places[n as int] - places[n - 1]) as nat,
            half_period,
        )
    }
}

proof fn one_origin(line: Seq<(u64, bool)>, places: Seq<nat>, half_period: u64, i: int)
    requires
        on_grid(line, places, half_period),
        0 <= i < line.len(),
    ensures
        half_cells::origin(line, half_period, i) == line[0].0,
    decreases i,
{
    if i > 0 {
        assert(no_break(line, half_period, i - 1));
        one_origin(line, places, half_period, i - 1);
    }
}

proof fn place_is_count(line: Seq<(u64, bool)>, places: Seq<nat>, half_period: u64, i: int)
    requires
        on_grid(line, places, half_period),
        0 <= i < line.len(),
    ensures
        half_cells::cells_before(line, half_period, i) == places[i],
{
    one_origin(line, places, half_period, i);
    let rest = line[i].0 - line[0].0 - places[i] * half_period + half_period / 2;
    let total = line[i].0 - line[0].0 + half_period / 2;
    assert(0 <= rest < half_period);
    assert(line[i].0 - line[0].0 + half_period / 2 <= u64::MAX);
    assert(places[i] * half_period >= 0) by (nonlinear_arith);
    vstd::arithmetic::div_mod::lemma_fundamental_div_mod_converse(
        total,
        half_period as int,
        places[i] as int,
        rest,
    );
}

/// Jitter of less than half a half period, and edges that come half a period
/// early, do not change the half-cells: as many are read between two
/// transitions as there are places between them.
pub proof fn jitter_keeps_cells(
    line: Seq<(u64, bool)>,
    places: Seq<nat>,
    half_period: u64,
    n: nat,
)
    requires
        on_grid(line, places, half_period),
        n < line.len(),
    ensures
        half_cells::cells_of(line, half_period, n) == cells_by_place(line, places, half_period, n),
    decreases n,
{
    if n > 0 {
        jitter_keeps_cells(line, places, half_period, (n - 1) as nat);
        place_is_count(line, places, half_period, n - 1);
        place_is_count(line, places, half_period, n as int);
        assert(no_break(line, half_period, n - 1));
    }
}

/// An idle line before the first transition of a stream has no half-cells, and
/// those of the stream are read as without it.
pub proof fn idle_lead_in_has_no_cells(
    idle: (u64, bool),
    line: Seq<(u64, bool)>,
    half_period: u64,
    n: nat,
)
    requires
        line.len() > 0,
        line[0].0 - idle.0 > 4 * half_period,
        n < line.len(),
    ensures
        half_cells::cells_of(seq![idle] + line, half_period, n + 1) == half_cells::cells_of(
            line,
            half_period,
            n,
        ),
    decreases n,
{
    let longer = seq![idle] + line;
    assert(longer[0] == idle && longer[1] == line[0]);
    if n == 0 {
        assert(half_cells::is_break(longer, half_period, 0));
        assert(half_cells::cells_of(longer, half_period, 0) =~= Seq::<(u64, bool)>::empty());
        assert(half_cells::cells_of(longer, half_period, 1) =~= Seq::<(u64, bool)>::empty());
    } else {
        idle_lead_in_has_no_cells(idle, line, half_period, (n - 1) as nat);
        assert(longer[n as int] == line[n - 1] && longer[n as int + 1] == line[n as int]);
        lead_in_keeps_origin(idle, line, half_period, n - 1);
        lead_in_keeps_origin(idle, line, half_period, n as int);
        assert(half_cells::gap_cells(longer, half_period, n as int) == half_cells::gap_cells(
            line,
            half_period,
            n - 1,
        ));
    }
}

proof fn lead_in_keeps_origin(
    idle: (u64, bool),
    line: Seq<(u64, bool)>,
    half_period: u64,
    i: int,
)
    requires
        line.len() > 0,
        line[0].0 - idle.0 > 4 * half_period,
        0 <= i < line.len(),
    ensures
        half_cells::origin(seq![idle] + line, half_period, i + 1) == half_cells::origin(
            line,
            half_period,
            i,
        ),
    decreases i,
{
    let longer = seq![idle] + line;
    assert(longer[0] == idle);
    assert(longer[i + 1] == line[i]);
    if i == 0 {
        assert(half_cells::is_break(longer, half_period, 0));
    } else {
        assert(longer[i] == line[i - 1]);
        lead_in_keeps_origin(idle, line, half_period, i - 1);
    }
}

/// A gap of more than four half periods ends a stream, and what comes behind it
/// is read as a stream of its own.
pub proof fn discontinuity_starts_anew(
    before: Seq<(u64, bool)>,
    after: Seq<(u64, bool)>,
    half_period: u64,
    n: nat,
)
    requires
        before.len() > 0,
        after.len() > 0,
        after[0].0 - before.last().0 > 4 * half_period,
        n < after.len(),
    ensures
        half_cells::cells_of(before + after, half_period, (before.len() + n) as nat)
            == half_cells::cells_of(before, half_period, (before.len() - 1) as nat)
            + half_cells::cells_of(after, half_period, n),
    decreases n,
{
    let all = before + after;
    let m = before.len();
    if n == 0 {
        assert(all[m - 1] == before.last() && all[m as int] == after[0]);
        assert(half_cells::is_break(all, half_period, m - 1));
        same_cells(before, all, half_period, (m - 1) as nat);
        assert(half_cells::gap_cells(all, half_period, m - 1) =~= Seq::<(u64, bool)>::empty());
        assert(half_cells::cells_of(after, half_period, 0) =~= Seq::<(u64, bool)>::empty());
        let first = half_cells::cells_of(before, half_period, (m - 1) as nat);
        assert(first + Seq::<(u64, bool)>::empty() =~= first);
    } else {
        discontinuity_starts_anew(before, after, half_period, (n - 1) as nat);
        assert(all[m + n - 1] == after[n - 1] && all[m + n as int] == after[n as int]);
        later_origin(before, after, half_period, n - 1);
        later_origin(before, after, half_period, n as int);
        assert(half_cells::gap_cells(all, half_period, m + n - 1) == half_cells::gap_cells(
            after,
            half_period,
            n - 1,
        ));
        let first = half_cells::cells_of(before, half_period, (m - 1) as nat);
        let done = half_cells::cells_of(after, half_period, (n - 1) as nat);
        let more = half_cells::gap_cells(after, half_period, n - 1);
        assert(first + done + more =~= first + (done + more));
        assert((m + n - 1) as nat == (m + (n - 1)) as nat);
    }
}

proof fn later_origin(
    before: Seq<(u64, bool)>,
    after: Seq<(u64, bool)>,
    half_period: u64,
    i: int,
)
    requires
        before.len() > 0,
        after.len() > 0,
        after[0].0 - before.last().0 > 4 * half_period,
        0 <= i < after.len(),
    ensures
        half_cells::origin(before + after, half_period, before.len() + i) == half_cells::origin(
            after,
            half_period,
            i,
        ),
    decreases i,
{
    let all = before + after;
    let m = before.len() as int;
    assert(all[m + i] == after[i]);
    if i == 0 {
        assert(all[m - 1] == before.last());
        assert(half_cells::is_break(all, half_period, m - 1));
    } else {
        assert(all[m + i - 1] == after[i - 1]);
        later_origin(before, after, half_period, i - 1);
    }
}

proof fn same_cells(before: Seq<(u64, bool)>, all: Seq<(u64, bool)>, half_period: u64, n: nat)
    requires
        n < before.len() <= all.len(),
        forall|i: int| 0 <= i < before.len() ==> before[i] == all[i],
    ensures
        half_cells::cells_of(before, half_period, n) == half_cells::cells_of(all, half_period, n),
    decreases n,
{
    if n > 0 {
        same_cells(before, all, half_period, (n - 1) as nat);
        same_origin(before, all, half_period, n - 1);
        same_origin(before, all, half_period, n as int);
        assert(before[n - 1] == all[n - 1] && before[n as int] == all[n as int]);
    }
}

proof fn same_origin(before: Seq<(u64, bool)>, all: Seq<(u64, bool)>, half_period: u64, i: int)
    requires
        0 <= i < before.len() <= all.len(),
        forall|i: int| 0 <= i < before.len() ==> before[i] == all[i],
    ensures
        half_cells::origin(before, half_period, i) == half_cells::origin(all, half_period, i),
    decreases i,
{
    assert(before[i] == all[i]);
    if i > 0 {
        assert(before[i - 1] == all[i - 1]);
        same_origin(before, all, half_period, i - 1);
    }
}

/// A gap is one, two or three half periods if and only if it is off by no more
/// than a quarter of one.
pub proof fn gaps_are_counted(gap: u64, half_period: u64, count: u64)
    requires
        half_period > 0,
    ensures
        clock_recovery::units(gap, half_period) == Some(count) <==> {
            &&& 1 <= count <= 3
            &&& 4 * (gap - count * half_period) <= half_period
            &&& 4 * (count * half_period - gap) <= half_period
        },
{
    if count == 1 {
        assert(count * half_period == half_period);
    } else if count == 2 {
        assert(count * half_period == 2 * half_period);
    } else if count == 3 {
        assert(count * half_period == 3 * half_period);
    }
}

/// The levels of a line, the other way round.
pub open spec fn inverted(line: Seq<(u64, bool)>) -> Seq<(u64, bool)> {
    line.map_values(|event: (u64, bool)| (event.0, !event.1))
}

/// The polarity of a line does not matter to its half-cells but for their
/// levels.
pub proof fn polarity_keeps_cells(line: Seq<(u64, bool)>)
    ensures
        half_cells::recovered(inverted(line)) == (match half_cells::recovered(line) {
            Ok((cells, half_period)) => Ok((inverted(cells), half_period)),
            Err(fault) => Err(fault),
        }),
{
    if line.len() > 0 {
        assert(half_cells::gaps_of(inverted(line)) =~= half_cells::gaps_of(line));
    }
    if line.len() >= 2 {
        if let Some(half_period) = clock_recovery::half_period_of(half_cells::gaps_of(line)) {
            inverted_cells(line, half_period, (line.len() - 1) as nat);
        }
    }
}

proof fn inverted_cells(line: Seq<(u64, bool)>, half_period: u64, n: nat)
    requires
        n < line.len(),
    ensures
        half_cells::cells_of(inverted(line), half_period, n) == inverted(
            half_cells::cells_of(line, half_period, n),
        ),
    decreases n,
{
    if n == 0 {
        assert(half_cells::cells_of(inverted(line), half_period, 0) =~= inverted(
            half_cells::cells_of(line, half_period, 0),
        ));
    } else {
        inverted_cells(line, half_period, (n - 1) as nat);
        inverted_origin(line, half_period, n - 1);
        inverted_origin(line, half_period, n as int);
        let here = half_cells::gap_cells(line, half_period, n - 1);
        let there = half_cells::gap_cells(inverted(line), half_period, n - 1);
        assert(there =~= inverted(here));
        assert(half_cells::cells_of(inverted(line), half_period, n) =~= inverted(
            half_cells::cells_of(line, half_period, n),
        ));
    }
}

proof fn inverted_origin(line: Seq<(u64, bool)>, half_period: u64, i: int)
    requires
        0 <= i < line.len(),
    ensures
        half_cells::origin(inverted(line), half_period, i) == half_cells::origin(
            line,
            half_period,
            i,
        ),
    decreases i,
{
    if i > 0 {
        inverted_origin(line, half_period, i - 1);
    }
}

/// Glitches cannot shift what follows them: up to a transition, as many
/// half-cells are read as lie between the first transition and that one,
/// whenever the transitions between the two come.
pub proof fn glitches_keep_alignment(line: Seq<(u64, bool)>, half_period: u64, n: nat)
    requires
        half_period > 0,
        transitions::times_ascend(line),
        n < line.len(),
        forall|i: int| 0 <= i < n ==> !#[trigger] half_cells::is_break(line, half_period, i),
    ensures
        half_cells::cells_of(line, half_period, n).len() == half_cells::saturated(
            line[n as int].0 - line[0].0 + half_period / 2,
        ) / half_period,
    decreases n,
{
    begins_at_first(line, half_period, n as int);
    if n == 0 {
        assert((half_period / 2) / half_period == 0) by (nonlinear_arith)
            requires
                half_period > 0,
        ;
    } else {
        glitches_keep_alignment(line, half_period, (n - 1) as nat);
        begins_at_first(line, half_period, n - 1);
        assert(no_break(line, half_period, n - 1));
        assert(line[n - 1].0 <= line[n as int].0);
        assert(line[0].0 <= line[n - 1].0);
        let a = half_cells::saturated(line[n - 1].0 - line[0].0 + half_period / 2);
        let b = half_cells::saturated(line[n as int].0 - line[0].0 + half_period / 2);
        vstd::arithmetic::div_mod::lemma_div_is_ordered(a as int, b as int, half_period as int);
    }
}

proof fn begins_at_first(line: Seq<(u64, bool)>, half_period: u64, i: int)
    requires
        0 <= i < line.len(),
        forall|k: int| 0 <= k < i ==> !#[trigger] half_cells::is_break(line, half_period, k),
    ensures
        half_cells::origin(line, half_period, i) == line[0].0,
    decreases i,
{
    if i > 0 {
        assert(!half_cells::is_break(line, half_period, i - 1));
        begins_at_first(line, half_period, i - 1);
    }
}

proof fn nth_gaps(gaps: Seq<u64>, step: nat)
    requires
        step > 0,
    ensures
        forall|k: int|
            0 <= k ==> (k < clock_recovery::every_nth(gaps, step).len() <==> (#[trigger] (step * k))
                < gaps.len()),
        forall|k: int|
            0 <= k < clock_recovery::every_nth(gaps, step).len() ==> #[trigger]
            clock_recovery::every_nth(gaps, step)[k] == gaps[step * k],
    decreases gaps.len(),
{
    let found = clock_recovery::every_nth(gaps, step);
    if gaps.len() > step {
        nth_gaps(gaps.skip(step as int), step);
    }
    let later = clock_recovery::every_nth(gaps.skip(step as int), step);
    assert forall|k: int| 0 <= k implies (k < found.len() <==> (#[trigger] (step * k))
        < gaps.len()) by {
        step_before(step as int, k);
        if k > 0 && gaps.len() > step {
            assert(k - 1 < later.len() <==> step * (k - 1) < gaps.len() - step);
        }
    }
    assert forall|k: int| 0 <= k < found.len() implies #[trigger] found[k] == gaps[step * k] by {
        step_before(step as int, k);
        if k > 0 && gaps.len() > step {
            assert(later[k - 1] == gaps.skip(step as int)[step * (k - 1)]);
            assert(k - 1 < later.len() <==> step * (k - 1) < gaps.len() - step);
        }
    }
}

proof fn step_before(step: int, k: int)
    by (nonlinear_arith)
    requires
        step > 0,
        k >= 0,
    ensures
        step * k == step * (k - 1) + step,
        k > 0 ==> step * (k - 1) >= 0,
        k == 0 ==> step * k == 0,
{
}

/// Up to 512 gaps are all looked at for the half period. Of more than that every
/// second one is, every third one of more than 1024, and so on, from the first
/// one on: never more than 512.
pub proof fn sample_is_spread_evenly(gaps: Seq<u64>, step: nat)
    requires
        step > 0,
        512 * (step - 1) < gaps.len() <= 512 * step,
    ensures
        clock_recovery::sample(gaps).len() <= 512,
        forall|k: int|
            0 <= k ==> (k < clock_recovery::sample(gaps).len() <==> (#[trigger] (step * k))
                < gaps.len()),
        forall|k: int|
            0 <= k < clock_recovery::sample(gaps).len() ==> #[trigger] clock_recovery::sample(
                gaps,
            )[k] == gaps[step * k],
{
    assert(clock_recovery::sample_step(gaps.len()) == step);
    nth_gaps(gaps, step);
    assert((step * 512int) < gaps.len() <==> 512 < clock_recovery::sample(gaps).len());
}

} // verus!
