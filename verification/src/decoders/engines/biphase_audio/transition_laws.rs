//! What holds of the transitions of a line, and of sampling it.
use vstd::prelude::*;
use crate::decoders::engines::biphase_audio::transitions;
use crate::decoders::input;
use crate::decoders::input::{Bit, VariableValue};

verus! {

/// The changes to one of the two levels.
pub open spec fn changes_to_levels(changes: Seq<(u64, VariableValue)>) -> Seq<
    (u64, VariableValue),
> {
    changes.filter(
        |change: (u64, VariableValue)|
            input::bit_of_value(change.1) == Bit::Zero || input::bit_of_value(change.1) == Bit::One,
    )
}

/// Of the changes of a line, those to a level are kept, in their order and at
/// their times; those to anything else are passed over.
pub proof fn levels_are_kept(changes: Seq<(u64, VariableValue)>)
    ensures
        ({
            let kept = changes_to_levels(changes);
            let levels = transitions::known_levels(changes);
            &&& levels.len() == kept.len()
            &&& forall|i: int|
                0 <= i < kept.len() ==> (#[trigger] levels[i]).0 == kept[i].0 && (levels[i].1 <==>
                input::bit_of_value(kept[i].1) == Bit::One)
        }),
    decreases changes.len(),
{
    reveal(Seq::filter);
    if changes.len() > 0 {
        levels_are_kept(changes.drop_last());
    }
}

/// A line is known exactly where all of its changes are to a level.
pub proof fn known_lines_have_levels(changes: Seq<(u64, VariableValue)>)
    ensures
        transitions::all_known(changes) <==> forall|i: int|
            0 <= i < changes.len() ==> {
                ||| input::bit_of_value((#[trigger] changes[i]).1) == Bit::Zero
                ||| input::bit_of_value(changes[i].1) == Bit::One
            },
{
    if transitions::all_known(changes) {
        assert forall|i: int| 0 <= i < changes.len() implies {
            ||| input::bit_of_value((#[trigger] changes[i]).1) == Bit::Zero
            ||| input::bit_of_value(changes[i].1) == Bit::One
        } by {
            assert(transitions::level_of_value(changes[i].1) is Some);
        }
    }
}

/// Whether a transition is the last one at its time.
pub open spec fn is_last(line: Seq<(u64, bool)>, i: int) -> bool {
    0 <= i < line.len() && (i + 1 < line.len() ==> line[i + 1].0 != line[i].0)
}

/// Of the transitions at one time only the last one counts, and all of those
/// that are last do.
pub proof fn last_transitions_count(line: Seq<(u64, bool)>, transition: (u64, bool))
    ensures
        transitions::settled(line).contains(transition) <==> exists|i: int| #[trigger]
            is_last(line, i) && line[i] == transition,
    decreases line.len(),
{
    let kept = transitions::settled(line);
    if line.len() > 0 {
        let rest = line.drop_first();
        let behind = transitions::settled(rest);
        last_transitions_count(rest, transition);
        let alone = !(line.len() > 1 && line[0].0 == line[1].0);
        assert(alone <==> is_last(line, 0));
        if alone {
            assert(kept == seq![line[0]] + behind);
            assert(kept[0] == line[0]);
            if behind.contains(transition) {
                let k = choose|k: int| 0 <= k < behind.len() && behind[k] == transition;
                assert(kept[k + 1] == transition);
            }
            if kept.contains(transition) && transition != line[0] {
                let k = choose|k: int| 0 <= k < kept.len() && kept[k] == transition;
                assert(behind[k - 1] == transition);
            }
        }
        if exists|i: int| #[trigger] is_last(rest, i) && rest[i] == transition {
            let i = choose|i: int| #[trigger] is_last(rest, i) && rest[i] == transition;
            assert(is_last(line, i + 1) && line[i + 1] == transition);
        }
        if exists|i: int| #[trigger] is_last(line, i) && line[i] == transition {
            let i = choose|i: int| #[trigger] is_last(line, i) && line[i] == transition;
            if i > 0 {
                assert(is_last(rest, i - 1) && rest[i - 1] == transition);
            }
        }
    }
}

/// The level of a line at a time is that of the latest transition up to then.
/// Before the first one the line is taken to be at its level already.
pub proof fn latest_transition_tells_level(line: Seq<(u64, bool)>, time: u64, k: int)
    requires
        transitions::times_ascend(line),
        line.len() > 0,
        0 <= k < line.len(),
        k > 0 ==> line[k].0 <= time,
        k + 1 < line.len() ==> line[k + 1].0 > time,
    ensures
        transitions::level_at(line, time) == line[k].1,
    decreases line.len(),
{
    if k + 1 < line.len() {
        assert(line[k + 1].0 <= line.last().0);
        let front = line.drop_last();
        assert forall|i: int, j: int| 0 <= i <= j < front.len() implies (#[trigger] front[i]).0 <= (
        #[trigger] front[j]).0 by {
            assert(line[i].0 <= line[j].0);
        }
        latest_transition_tells_level(front, time, k);
    }
}

/// With a bit clock, there is one half-cell at every edge of the clock: it
/// begins there, and has the level that the line has there.
pub proof fn clock_edges_are_half_cells(line: Seq<(u64, bool)>, edges: Seq<(u64, bool)>, i: int)
    requires
        0 <= i < edges.len(),
    ensures
        transitions::sampled(line, edges).len() == edges.len(),
        transitions::sampled(line, edges)[i].0 == edges[i].0,
        transitions::sampled(line, edges)[i].1 == transitions::level_at(line, edges[i].0),
{
}

} // verus!
