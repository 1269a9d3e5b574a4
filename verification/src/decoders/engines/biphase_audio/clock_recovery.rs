//! Recovering the half-bit period of a line from the gaps between transitions.
use vstd::prelude::*;

verus! {

/// The number of half periods of length `candidate` that a gap lasts: one, two
/// or three, if it is off by no more than a quarter of a half period.
///
/// The tolerance is wide enough for transition jitter and narrow enough to
/// exclude the half-period glitches, which last 0.5, 1.5 or 2.5 half periods.
pub open spec fn units(gap: u64, candidate: u64) -> Option<u64> {
    if candidate == 0 {
        None
    } else if 3 * candidate <= 4 * gap <= 5 * candidate {
        Some(1)
    } else if 7 * candidate <= 4 * gap <= 9 * candidate {
        Some(2)
    } else if 11 * candidate <= 4 * gap <= 13 * candidate {
        Some(3)
    } else {
        None
    }
}

/// The gap in half periods if `candidate` explains it.
pub fn gap_units(gap: u64, candidate: u64) -> (found: Option<u64>)
    ensures
        found == units(gap, candidate),
{
    let gap: u128 = 4 * (gap as u128);
    let unit: u128 = candidate as u128;
    if candidate == 0 {
        None
    } else if 3 * unit <= gap && gap <= 5 * unit {
        Some(1)
    } else if 7 * unit <= gap && gap <= 9 * unit {
        Some(2)
    } else if 11 * unit <= gap && gap <= 13 * unit {
        Some(3)
    } else {
        None
    }
}

/// The number of gaps that `candidate` explains.
pub open spec fn score(gaps: Seq<u64>, candidate: u64) -> nat
    decreases gaps.len(),
{
    if gaps.len() == 0 {
        0
    } else {
        score(gaps.drop_last(), candidate) + if units(gaps.last(), candidate) is Some {
            1nat
        } else {
            0nat
        }
    }
}

/// Number of gaps that `candidate` explains as an integer number of half
/// periods.
pub fn gap_score(gaps: &Vec<u64>, candidate: u64) -> (count: usize)
    ensures
        count == score(gaps@, candidate),
{
    let mut count: usize = 0;
    let mut i: usize = 0;
    while i < gaps.len()
        invariant
            count <= i <= gaps.len(),
            count == score(gaps@.take(i as int), candidate),
        decreases gaps.len() - i,
    {
        assert(gaps@.take(i + 1).drop_last() =~= gaps@.take(i as int));
        if gap_units(gaps[i], candidate).is_some() {
            count += 1;
        }
        i += 1;
    }
    assert(gaps@.take(i as int) =~= gaps@);
    count
}

/// Whether some gap lasts one half period of length `candidate`.
pub open spec fn has_unit_gap(gaps: Seq<u64>, candidate: u64) -> bool {
    exists|i: int| 0 <= i < gaps.len() && units(#[trigger] gaps[i], candidate) == Some(1u64)
}

fn unit_gap_exists(gaps: &Vec<u64>, candidate: u64) -> (found: bool)
    ensures
        found == has_unit_gap(gaps@, candidate),
{
    let mut i: usize = 0;
    while i < gaps.len()
        invariant
            i <= gaps.len(),
            forall|k: int| 0 <= k < i ==> units(#[trigger] gaps@[k], candidate) != Some(1u64),
        decreases gaps.len() - i,
    {
        if gap_units(gaps[i], candidate) == Some(1) {
            assert(units(gaps@[i as int], candidate) == Some(1u64));
            return true;
        }
        i += 1;
    }
    false
}

/// The distance between the gaps of the sample, which holds 512 of them at
/// most.
pub open spec fn sample_step(count: nat) -> nat {
    if count == 0 {
        1
    } else {
        (count + 511) as nat / 512
    }
}

/// The first gap and every `step`-th one after it.
pub open spec fn every_nth(gaps: Seq<u64>, step: nat) -> Seq<u64>
    decreases gaps.len(),
{
    if gaps.len() == 0 {
        Seq::empty()
    } else if step == 0 || gaps.len() <= step {
        seq![gaps[0]]
    } else {
        seq![gaps[0]] + every_nth(gaps.skip(step as int), step)
    }
}

/// The gaps on which the candidates are scored first.
pub open spec fn sample(gaps: Seq<u64>) -> Seq<u64> {
    every_nth(gaps, sample_step(gaps.len()))
}

fn sample_gaps(gaps: &Vec<u64>) -> (sampled: Vec<u64>)
    ensures
        sampled@ == sample(gaps@),
{
    let mut sampled: Vec<u64> = Vec::new();
    let count = gaps.len();
    if count == 0 {
        return sampled;
    }
    let step: usize = count / 512 + if count % 512 == 0 {
        0
    } else {
        1
    };
    assert(step == sample_step(gaps@.len()));
    let mut index: usize = 0;
    assert(gaps@.skip(0) =~= gaps@);
    assert(sampled@ + every_nth(gaps@, step as nat) =~= every_nth(gaps@, step as nat));
    loop
        invariant_except_break
            sampled@ + every_nth(gaps@.skip(index as int), step as nat) == every_nth(
                gaps@,
                step as nat,
            ),
        invariant
            count == gaps.len(),
            step > 0,
            index < count,
        ensures
            sampled@ == every_nth(gaps@, step as nat),
        decreases count - index,
    {
        let ghost rest = gaps@.skip(index as int);
        let ghost before = sampled@;
        sampled.push(gaps[index]);
        if count - index <= step {
            assert(sampled@ =~= before + every_nth(rest, step as nat));
            break;
        }
        assert(rest.skip(step as int) =~= gaps@.skip(index + step));
        assert(sampled@ + every_nth(gaps@.skip(index + step), step as nat) =~= before + every_nth(
            rest,
            step as nat,
        ));
        index += step;
    }
    sampled
}

/// Whether `candidate` is a gap, or half or a third of one.
pub open spec fn is_candidate(gaps: Seq<u64>, candidate: u64) -> bool {
    candidate > 0 && exists|i: int|
        0 <= i < gaps.len() && (candidate == #[trigger] gaps[i] || candidate == gaps[i] / 2
            || candidate == gaps[i] / 3)
}

/// Whether `a` is a better candidate than `b`. The better one explains more
/// gaps of the sample, then more of all gaps, then is itself a gap, and then is
/// the smaller one.
pub open spec fn preferred(gaps: Seq<u64>, a: u64, b: u64) -> bool {
    let (sample_a, sample_b) = (score(sample(gaps), a), score(sample(gaps), b));
    let (all_a, all_b) = (score(gaps, a), score(gaps, b));
    let (unit_a, unit_b) = (has_unit_gap(gaps, a), has_unit_gap(gaps, b));
    sample_a > sample_b || (sample_a == sample_b && (all_a > all_b || (all_a == all_b && ((unit_a
        && !unit_b) || (unit_a == unit_b && a < b)))))
}

/// Whether `candidate` is the best candidate of all.
pub open spec fn is_half_period(gaps: Seq<u64>, candidate: u64) -> bool {
    &&& is_candidate(sample(gaps), candidate)
    &&& forall|other: u64| #[trigger]
        is_candidate(sample(gaps), other) && other != candidate ==> preferred(
            gaps,
            candidate,
            other,
        )
}

/// The half period that the gaps tell, if any gap is longer than zero.
pub open spec fn half_period_of(gaps: Seq<u64>) -> Option<u64> {
    if exists|candidate: u64| is_half_period(gaps, candidate) {
        Some(choose|candidate: u64| is_half_period(gaps, candidate))
    } else {
        None
    }
}

/// There is no second half period beside the best candidate.
pub proof fn half_period_is_unique(gaps: Seq<u64>, candidate: u64)
    requires
        is_half_period(gaps, candidate),
    ensures
        half_period_of(gaps) == Some(candidate),
{
    let found = choose|other: u64| is_half_period(gaps, other);
    if found != candidate {
        assert(preferred(gaps, found, candidate));
        assert(preferred(gaps, candidate, found));
    }
}

/// Without a candidate there is no half period.
pub proof fn no_half_period_without_candidates(gaps: Seq<u64>)
    requires
        forall|candidate: u64| !is_candidate(sample(gaps), candidate),
    ensures
        half_period_of(gaps) is None,
{
    if exists|candidate: u64| is_half_period(gaps, candidate) {
        let candidate = choose|candidate: u64| is_half_period(gaps, candidate);
        assert(is_candidate(sample(gaps), candidate));
    }
}

fn listed(values: &Vec<u64>, value: u64) -> (found: bool)
    ensures
        found == values@.contains(value),
{
    let mut i: usize = 0;
    while i < values.len()
        invariant
            i <= values.len(),
            forall|k: int| 0 <= k < i ==> values@[k] != value,
        decreases values.len() - i,
    {
        if values[i] == value {
            assert(values@[i as int] == value);
            return true;
        }
        i += 1;
    }
    false
}

fn list_once(values: &mut Vec<u64>, value: u64)
    ensures
        final(values)@ == (if value == 0 || old(values)@.contains(value) {
            old(values)@
        } else {
            old(values)@.push(value)
        }),
{
    if value > 0 && !listed(values, value) {
        values.push(value);
    }
}

fn collect_candidates(gaps: &Vec<u64>) -> (candidates: Vec<u64>)
    ensures
        forall|c: u64| candidates@.contains(c) <==> #[trigger] is_candidate(gaps@, c),
{
    let mut candidates: Vec<u64> = Vec::new();
    let mut i: usize = 0;
    while i < gaps.len()
        invariant
            i <= gaps.len(),
            forall|c: u64|
                candidates@.contains(c) <==> #[trigger] is_candidate(gaps@.take(i as int), c),
        decreases gaps.len() - i,
    {
        let ghost before = candidates@;
        let gap = gaps[i];
        list_once(&mut candidates, gap);
        let ghost first = candidates@;
        list_once(&mut candidates, gap / 2);
        let ghost second = candidates@;
        list_once(&mut candidates, gap / 3);
        proof {
            assert forall|c: u64| candidates@.contains(c) <==> #[trigger] is_candidate(
                gaps@.take(i + 1),
                c,
            ) by {
                lists(before, first, gap, c);
                lists(first, second, gap / 2, c);
                lists(second, candidates@, gap / 3, c);
                candidates_grow(gaps@, i as int, c);
            }
        }
        i += 1;
    }
    assert(gaps@.take(i as int) =~= gaps@);
    candidates
}

proof fn lists(before: Seq<u64>, after: Seq<u64>, value: u64, c: u64)
    requires
        after == (if value == 0 || before.contains(value) {
            before
        } else {
            before.push(value)
        }),
    ensures
        after.contains(c) <==> before.contains(c) || (c > 0 && c == value) || (c == 0
            && before.contains(c)),
{
    if !(value == 0 || before.contains(value)) {
        assert(after[before.len() as int] == value);
        if before.contains(c) {
            let k = choose|k: int| 0 <= k < before.len() && before[k] == c;
            assert(after[k] == c);
        }
    }
}

proof fn candidates_grow(gaps: Seq<u64>, i: int, c: u64)
    requires
        0 <= i < gaps.len(),
    ensures
        is_candidate(gaps.take(i + 1), c) <==> is_candidate(gaps.take(i), c) || (c > 0 && (c
            == gaps[i] || c == gaps[i] / 2 || c == gaps[i] / 3)),
{
    let before = gaps.take(i);
    let after = gaps.take(i + 1);
    assert(after[i] == gaps[i]);
    if is_candidate(before, c) {
        let k = choose|k: int|
            0 <= k < before.len() && (c == #[trigger] before[k] || c == before[k] / 2 || c
                == before[k] / 3);
        assert(after[k] == before[k]);
    }
    if is_candidate(after, c) {
        let k = choose|k: int|
            0 <= k < after.len() && (c == #[trigger] after[k] || c == after[k] / 2 || c == after[k]
                / 3);
        if k < i {
            assert(after[k] == before[k]);
        }
    }
}

/// Estimate the half-bit period from the gaps between transitions.
///
/// The gaps of a biphase-mark stream are one, two, or three half periods, so
/// each gap divided by one, two, or three is a candidate. The true half
/// period is the candidate that explains the most gaps as integer multiples,
/// which stays robust when transition jitter or half-period glitches make the
/// individual gap values differ from exact multiples. The half period is
/// constant, so candidates come from a sample of the gaps and are scored on
/// it; only where they tie there, on all gaps.
pub fn estimate_half_period(gaps: &Vec<u64>) -> (half_period: Option<u64>)
    ensures
        half_period == half_period_of(gaps@),
        match half_period {
            Some(candidate) => is_half_period(gaps@, candidate),
            None => forall|candidate: u64| !is_candidate(sample(gaps@), candidate),
        },
{
    let sampled = sample_gaps(gaps);
    let candidates = collect_candidates(&sampled);
    if candidates.len() == 0 {
        proof {
            assert forall|c: u64| !is_candidate(sample(gaps@), c) by {
                assert(!candidates@.contains(c));
            }
            no_half_period_without_candidates(gaps@);
        }
        return None;
    }
    let mut best: u64 = candidates[0];
    let mut best_sample: usize = gap_score(&sampled, best);
    let mut best_all: usize = gap_score(gaps, best);
    let mut best_unit: bool = unit_gap_exists(gaps, best);
    let mut i: usize = 1;
    assert(candidates@.contains(candidates@[0]));
    while i < candidates.len()
        invariant
            sampled@ == sample(gaps@),
            1 <= i <= candidates.len(),
            candidates@.contains(best),
            best_sample == score(sampled@, best),
            best_all == score(gaps@, best),
            best_unit == has_unit_gap(gaps@, best),
            forall|k: int|
                0 <= k < i && candidates@[k] != best ==> preferred(
                    gaps@,
                    best,
                    #[trigger] candidates@[k],
                ),
        decreases candidates.len() - i,
    {
        let candidate = candidates[i];
        let ghost previous = best;
        let sample_score = gap_score(&sampled, candidate);
        if sample_score >= best_sample {
            let all_score = gap_score(gaps, candidate);
            let unit = unit_gap_exists(gaps, candidate);
            if sample_score > best_sample || all_score > best_all || (all_score == best_all && ((
            unit && !best_unit) || (unit == best_unit && candidate < best))) {
                assert(preferred(gaps@, candidate, previous));
                best = candidate;
                best_sample = sample_score;
                best_all = all_score;
                best_unit = unit;
                assert(candidates@[i as int] == best);
            }
        }
        i += 1;
    }
    proof {
        assert forall|other: u64| #[trigger]
            is_candidate(sample(gaps@), other) && other != best implies preferred(
            gaps@,
            best,
            other,
        ) by {
            assert(candidates@.contains(other));
            let k = choose|k: int| 0 <= k < candidates@.len() && candidates@[k] == other;
            assert(preferred(gaps@, best, candidates@[k]));
        }
        assert(is_candidate(sample(gaps@), best));
        half_period_is_unique(gaps@, best);
    }
    Some(best)
}

} // verus!
