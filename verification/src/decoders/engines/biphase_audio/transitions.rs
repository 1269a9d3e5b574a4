//! The transitions of a line, and sampling it with a clock.
use vstd::prelude::*;
use crate::decoders::error::{DecoderError, ErrorView};
use crate::decoders::input;
use crate::decoders::input::{Bit, SignalAccessor, VariableValue};

verus! {

/// The level that a value stands for, if it is one.
pub open spec fn level_of_value(value: VariableValue) -> Option<bool> {
    match input::bit_of_value(value) {
        Bit::Zero => Some(false),
        Bit::One => Some(true),
        _ => None,
    }
}

/// The changes to a known level.
pub open spec fn known_levels(changes: Seq<(u64, VariableValue)>) -> Seq<(u64, bool)>
    decreases changes.len(),
{
    if changes.len() == 0 {
        Seq::empty()
    } else {
        let rest = known_levels(changes.drop_last());
        match level_of_value(changes.last().1) {
            Some(level) => rest.push((changes.last().0, level)),
            None => rest,
        }
    }
}

/// The transitions that are not followed by another one at the same time.
pub open spec fn settled(transitions: Seq<(u64, bool)>) -> Seq<(u64, bool)>
    decreases transitions.len(),
{
    if transitions.len() == 0 {
        Seq::empty()
    } else if transitions.len() > 1 && transitions[0].0 == transitions[1].0 {
        settled(transitions.drop_first())
    } else {
        seq![transitions[0]] + settled(transitions.drop_first())
    }
}

/// Whether the times of the transitions never decrease.
pub open spec fn times_ascend(transitions: Seq<(u64, bool)>) -> bool {
    forall|i: int, j: int|
        0 <= i <= j < transitions.len() ==> (#[trigger] transitions[i]).0 <= (
        #[trigger] transitions[j]).0
}

/// Whether each transition is later than those before it.
pub open spec fn times_increase(transitions: Seq<(u64, bool)>) -> bool {
    forall|i: int, j: int|
        0 <= i < j < transitions.len() ==> (#[trigger] transitions[i]).0 < (
        #[trigger] transitions[j]).0
}

/// Whether every change is to a known level.
pub open spec fn all_known(changes: Seq<(u64, VariableValue)>) -> bool {
    forall|i: int|
        0 <= i < changes.len() ==> level_of_value((#[trigger] changes[i]).1) is Some
}

proof fn known_levels_ascend(changes: Seq<(u64, VariableValue)>)
    requires
        input::in_time_order(changes),
    ensures
        times_ascend(known_levels(changes)),
        known_levels(changes).len() > 0 ==> known_levels(changes).last().0 <= changes.last().0,
    decreases changes.len(),
{
    if changes.len() > 0 {
        let front = changes.drop_last();
        assert forall|i: int, j: int| 0 <= i <= j < front.len() implies (#[trigger] front[i]).0 <= (
        #[trigger] front[j]).0 by {
            assert(changes[i].0 <= changes[j].0);
        }
        known_levels_ascend(front);
        if front.len() > 0 {
            assert(changes[front.len() - 1].0 <= changes.last().0);
            assert(front.last() == changes[front.len() - 1]);
        }
        let rest = known_levels(front);
        let all = known_levels(changes);
        assert forall|i: int, j: int| 0 <= i <= j < all.len() implies (#[trigger] all[i]).0 <= (
        #[trigger] all[j]).0 by {
            if j < rest.len() {
                assert(rest[i].0 <= rest[j].0);
            } else if i < rest.len() {
                assert(rest[i].0 <= rest[rest.len() - 1].0);
            }
        }
    }
}

/// Of transitions whose times never decrease, the settled ones come at
/// different times, and they include the last one.
pub proof fn settled_increase(transitions: Seq<(u64, bool)>)
    requires
        times_ascend(transitions),
    ensures
        times_increase(settled(transitions)),
        transitions.len() > 0 ==> settled(transitions).len() > 0 && settled(transitions)[0].0
            == transitions[0].0 && settled(transitions).last() == transitions.last(),
    decreases transitions.len(),
{
    if transitions.len() > 0 {
        let rest = transitions.drop_first();
        assert forall|i: int, j: int| 0 <= i <= j < rest.len() implies (#[trigger] rest[i]).0 <= (
        #[trigger] rest[j]).0 by {
            assert(transitions[i + 1].0 <= transitions[j + 1].0);
        }
        settled_increase(rest);
        let kept = settled(rest);
        let all = settled(transitions);
        if rest.len() > 0 {
            assert(rest[0] == transitions[1]);
            assert(transitions[0].0 <= transitions[1].0);
            if transitions[0].0 != transitions[1].0 {
                assert forall|i: int, j: int| 0 <= i < j < all.len() implies (#[trigger] all[i]).0 < (
                #[trigger] all[j]).0 by {
                    assert(all[j] == kept[j - 1]);
                    if i > 0 {
                        assert(all[i] == kept[i - 1]);
                        assert(kept[i - 1].0 < kept[j - 1].0);
                    } else if j > 1 {
                        assert(kept[0].0 < kept[j - 1].0);
                    }
                }
                assert(all.last() == kept.last());
            }
        }
    }
}

fn level_of(value: &VariableValue) -> (level: Option<bool>)
    ensures
        level == level_of_value(*value),
{
    match input::bit_of(value) {
        Bit::Zero => Some(false),
        Bit::One => Some(true),
        _ => None,
    }
}

/// Collect the transitions of a 1-bit signal.
///
/// With `skip_unknown`, values that are no level are ignored rather than
/// rejected: a capture commonly idles undefined before the driver starts, and
/// the gaps they leave behind are handled as stream discontinuities. A bit
/// clock has no such excuse, so its unknowns are an error.
///
/// Simultaneous events carry no biphase interval. Some exporters emit a
/// provisional value and then the intended value at the same timestamp, so
/// only the final state at each time is kept.
pub fn collect_transitions(accessor: &SignalAccessor, skip_unknown: bool) -> (result: Result<
    Vec<(u64, bool)>,
    DecoderError,
>)
    ensures
        match result {
            Ok(transitions) => (skip_unknown || all_known(accessor@)) && transitions@ == settled(
                known_levels(accessor@),
            ) && times_increase(transitions@),
            Err(error) => !skip_unknown && !all_known(accessor@) && error@
                == ErrorView::NonBinaryClock,
        },
{
    let changes = accessor.changes();
    let mut transitions: Vec<(u64, bool)> = Vec::new();
    let mut i: usize = 0;
    while i < changes.len()
        invariant
            changes@ == accessor@,
            i <= changes.len(),
            transitions@ == known_levels(changes@.take(i as int)),
            skip_unknown || all_known(changes@.take(i as int)),
        decreases changes.len() - i,
    {
        proof {
            assert(changes@.take(i + 1).drop_last() =~= changes@.take(i as int));
            assert(changes@.take(i + 1).last() == changes@[i as int]);
        }
        match level_of(&changes[i].1) {
            Some(level) => {
                transitions.push((changes[i].0, level));
                assert(skip_unknown || all_known(changes@.take(i + 1))) by {
                    if !skip_unknown {
                        let next = changes@.take(i + 1);
                        assert forall|k: int| 0 <= k < next.len() implies level_of_value(
                            (#[trigger] next[k]).1,
                        ) is Some by {
                            if k < i {
                                assert(changes@.take(i as int)[k] == next[k]);
                            }
                        }
                    }
                }
            },
            None => {
                if !skip_unknown {
                    assert(level_of_value(changes@[i as int].1) is None);
                    return Err(DecoderError::NonBinaryClock);
                }
            },
        }
        i += 1;
    }
    proof {
        assert(changes@.take(i as int) =~= changes@);
        known_levels_ascend(changes@);
        settled_increase(transitions@);
    }

    let mut collapsed: Vec<(u64, bool)> = Vec::new();
    let mut k: usize = 0;
    assert(transitions@.skip(0) =~= transitions@);
    assert(collapsed@ + settled(transitions@) =~= settled(transitions@));
    while k < transitions.len()
        invariant
            k <= transitions.len(),
            collapsed@ + settled(transitions@.skip(k as int)) == settled(transitions@),
        decreases transitions.len() - k,
    {
        let ghost rest = transitions@.skip(k as int);
        proof {
            assert(rest.drop_first() =~= transitions@.skip(k + 1));
        }
        if k + 1 == transitions.len() || transitions[k].0 != transitions[k + 1].0 {
            collapsed.push(transitions[k]);
            assert(collapsed@ + settled(transitions@.skip(k + 1)) =~= settled(transitions@));
        }
        k += 1;
    }
    assert(collapsed@ + settled(transitions@.skip(k as int)) =~= collapsed@);
    Ok(collapsed)
}

/// The level of a line at `time`: that of the latest transition up to then, or
/// of the first one where none came yet. A line without transitions is low.
pub open spec fn level_at(data: Seq<(u64, bool)>, time: u64) -> bool
    decreases data.len(),
{
    if data.len() == 0 {
        false
    } else if data.len() == 1 || data.last().0 <= time {
        data.last().1
    } else {
        level_at(data.drop_last(), time)
    }
}

/// The level of the data line at every transition of the clock.
pub open spec fn sampled(data: Seq<(u64, bool)>, clock: Seq<(u64, bool)>) -> Seq<(u64, bool)> {
    Seq::new(clock.len(), |i: int| (clock[i].0, level_at(data, clock[i].0)))
}

/// How many transitions of the data line have been passed after going on from
/// `from` up to `time`: as long as the next one is not later than that.
pub open spec fn passed_from(data: Seq<(u64, bool)>, from: nat, time: u64) -> nat
    decreases data.len() - from,
{
    if from < data.len() && data[from as int].0 <= time {
        passed_from(data, from + 1, time)
    } else {
        from
    }
}

/// How many transitions of the data line have been passed at the first `n`
/// transitions of the clock.
pub open spec fn passed(data: Seq<(u64, bool)>, clock: Seq<(u64, bool)>, n: nat) -> nat
    decreases n,
{
    if n == 0 {
        0
    } else {
        passed_from(data, passed(data, clock, (n - 1) as nat), clock[n - 1].0)
    }
}

/// The level after `n` transitions: that of the last of them, or of the first
/// one where none came yet. A line without transitions is low.
pub open spec fn level_after(data: Seq<(u64, bool)>, n: nat) -> bool {
    if data.len() == 0 {
        false
    } else if n == 0 {
        data[0].1
    } else {
        data[n - 1].1
    }
}

/// What is read of the data line while going through the transitions of the
/// clock, in whatever order the two lists are.
pub open spec fn walked(data: Seq<(u64, bool)>, clock: Seq<(u64, bool)>) -> Seq<(u64, bool)> {
    Seq::new(
        clock.len(),
        |i: int| (clock[i].0, level_after(data, passed(data, clock, (i + 1) as nat))),
    )
}

proof fn level_at_boundary(data: Seq<(u64, bool)>, time: u64, reached: int)
    requires
        0 <= reached <= data.len(),
        reached > 0 ==> data[reached - 1].0 <= time,
        forall|k: int| reached <= k < data.len() ==> (#[trigger] data[k]).0 > time,
    ensures
        level_at(data, time) == level_after(data, reached as nat),
    decreases data.len(),
{
    if data.len() > 1 && reached < data.len() {
        assert(data.last() == data[data.len() - 1]);
        level_at_boundary(data.drop_last(), time, reached);
    }
}

proof fn passed_from_stops(data: Seq<(u64, bool)>, from: nat, time: u64)
    requires
        from <= data.len(),
        from > 0 ==> data[from - 1].0 <= time,
    ensures
        ({
            let at = passed_from(data, from, time);
            &&& from <= at <= data.len()
            &&& at > 0 ==> data[at - 1].0 <= time
            &&& at < data.len() ==> data[at as int].0 > time
        }),
    decreases data.len() - from,
{
    if from < data.len() && data[from as int].0 <= time {
        passed_from_stops(data, from + 1, time);
    }
}

proof fn passed_stops(data: Seq<(u64, bool)>, clock: Seq<(u64, bool)>, n: nat)
    requires
        times_ascend(clock),
        0 < n <= clock.len(),
    ensures
        ({
            let at = passed(data, clock, n);
            &&& at <= data.len()
            &&& at > 0 ==> data[at - 1].0 <= clock[n - 1].0
            &&& at < data.len() ==> data[at as int].0 > clock[n - 1].0
        }),
    decreases n,
{
    if n > 1 {
        passed_stops(data, clock, (n - 1) as nat);
        assert(clock[n - 2].0 <= clock[n - 1].0);
    }
    passed_from_stops(data, passed(data, clock, (n - 1) as nat), clock[n - 1].0);
}

/// Where both lists are in the order of time, the walk reads the level of the
/// data line at every transition of the clock.
pub proof fn walk_samples_line(data: Seq<(u64, bool)>, clock: Seq<(u64, bool)>)
    requires
        times_ascend(data),
        times_ascend(clock),
    ensures
        walked(data, clock) == sampled(data, clock),
{
    assert forall|i: int| 0 <= i < clock.len() implies #[trigger] walked(data, clock)[i] == sampled(
        data,
        clock,
    )[i] by {
        let at = passed(data, clock, (i + 1) as nat);
        passed_stops(data, clock, (i + 1) as nat);
        assert forall|k: int| at <= k < data.len() implies (#[trigger] data[k]).0
            > clock[i].0 by {
            assert(data[at as int].0 <= data[k].0);
        }
        level_at_boundary(data, clock[i].0, at as int);
    }
    assert(walked(data, clock) =~= sampled(data, clock));
}

/// Sample the data line at every edge of an explicit bit clock.
///
/// A bit clock has one cycle per bit cell, so its two edges land on the two
/// half-cells of each biphase-mark bit.
pub fn sample_half_cells(data: &Vec<(u64, bool)>, clock: &Vec<(u64, bool)>) -> (half_cells: Vec<
    (u64, bool),
>)
    ensures
        half_cells@ == walked(data@, clock@),
{
    let mut half_cells: Vec<(u64, bool)> = Vec::new();
    let mut level = if data.len() > 0 {
        data[0].1
    } else {
        false
    };
    let mut index: usize = 0;
    let mut i: usize = 0;
    while i < clock.len()
        invariant
            i <= clock.len(),
            index <= data.len(),
            half_cells@ == walked(data@, clock@).take(i as int),
            level == level_after(data@, index as nat),
            index == passed(data@, clock@, i as nat),
        decreases clock.len() - i,
    {
        let time = clock[i].0;
        while index < data.len() && data[index].0 <= time
            invariant
                index <= data.len(),
                level == level_after(data@, index as nat),
                passed_from(data@, index as nat, time) == passed(data@, clock@, (i + 1) as nat),
            decreases data.len() - index,
        {
            level = data[index].1;
            index += 1;
        }
        assert(walked(data@, clock@).take(i + 1) =~= walked(data@, clock@).take(i as int).push(
            (time, level),
        ));
        half_cells.push((time, level));
        i += 1;
    }
    assert(walked(data@, clock@).take(i as int) =~= walked(data@, clock@));
    half_cells
}

/// Of two events at one time, the later one counts: what is decoded does not
/// depend on a provisional level.
pub proof fn provisional_level_is_dropped(
    before: Seq<(u64, bool)>,
    provisional: (u64, bool),
    intended: (u64, bool),
    after: Seq<(u64, bool)>,
)
    requires
        provisional.0 == intended.0,
    ensures
        settled(before + seq![provisional, intended] + after) == settled(
            before + seq![intended] + after,
        ),
    decreases before.len(),
{
    let long = before + seq![provisional, intended] + after;
    let short = before + seq![intended] + after;
    if before.len() == 0 {
        assert(long.drop_first() =~= short);
    } else {
        let rest = before.drop_first();
        provisional_level_is_dropped(rest, provisional, intended, after);
        assert(long.drop_first() =~= rest + seq![provisional, intended] + after);
        assert(short.drop_first() =~= rest + seq![intended] + after);
        assert(long[0] == short[0]);
        assert(long[1].0 == short[1].0) by {
            if before.len() > 1 {
                assert(long[1] == before[1] && short[1] == before[1]);
            }
        }
    }
}

} // verus!
