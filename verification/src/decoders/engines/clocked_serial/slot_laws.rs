//! What holds of single samples, slots and frames.
use vstd::prelude::*;
use crate::decoders::engines::clocked_serial;
use crate::decoders::engines::clocked_serial::capture_laws;
use crate::decoders::engines::clocked_serial::params;
use crate::decoders::engines::clocked_serial::params::{FrameSyncMode, Justification, ParamsView};
use crate::decoders::engines::clocked_serial::state;
use crate::decoders::engines::clocked_serial::state::{Event, InputRole, StateView};
use crate::decoders::engines::clocked_serial::{Changes, Progress};
use crate::decoders::input;
use crate::decoders::input::{Bit, VariableValue};
use crate::decoders::value::{Edge, ItemView, NumericRange, ValueView};
use crate::text;

verus! {

/// Whether a bit is one of the two levels.
pub open spec fn is_level(bit: Bit) -> bool {
    bit == Bit::Zero || bit == Bit::One
}

/// One bit that is no level makes the whole sample unknown, wherever it stands:
/// high impedance before undefined, and that before "don't care". A sample is a
/// number exactly where all of its bits are levels.
pub proof fn every_bit_must_be_known(params: ParamsView, read: Seq<Bit>)
    ensures
        state::sample_value(params, read) is Integer <==> forall|i: int|
            0 <= i < read.len() ==> is_level(#[trigger] read[i]),
        state::sample_value(params, read) is HighImp <==> exists|i: int|
            0 <= i < read.len() && #[trigger] read[i] == Bit::HighImp,
        state::sample_value(params, read) is Undef <==> {
            &&& forall|i: int| 0 <= i < read.len() ==> #[trigger] read[i] != Bit::HighImp
            &&& exists|i: int|
                0 <= i < read.len() && (#[trigger] read[i] == Bit::Undef || read[i] == Bit::Weak)
        },
        state::sample_value(params, read) is DontCare <==> {
            &&& forall|i: int|
                0 <= i < read.len() ==> is_level(#[trigger] read[i]) || read[i] == Bit::DontCare
            &&& exists|i: int| 0 <= i < read.len() && #[trigger] read[i] == Bit::DontCare
        },
{
    let high = read.contains(Bit::HighImp);
    let undef = read.contains(Bit::Undef);
    let weak = read.contains(Bit::Weak);
    let care = read.contains(Bit::DontCare);
    if exists|i: int| 0 <= i < read.len() && #[trigger] read[i] == Bit::HighImp {
        assert(high);
    }
    if exists|i: int|
        0 <= i < read.len() && (#[trigger] read[i] == Bit::Undef || read[i] == Bit::Weak) {
        let i = choose|i: int|
            0 <= i < read.len() && (#[trigger] read[i] == Bit::Undef || read[i] == Bit::Weak);
        assert(undef || weak);
    }
    if exists|i: int| 0 <= i < read.len() && #[trigger] read[i] == Bit::DontCare {
        assert(care);
    }
    assert forall|i: int| 0 <= i < read.len() implies {
        ||| is_level(#[trigger] read[i])
        ||| read[i] == Bit::HighImp && high
        ||| read[i] == Bit::Undef && undef
        ||| read[i] == Bit::Weak && weak
        ||| read[i] == Bit::DontCare && care
    } by {
        assert(read.contains(read[i]));
    }
}

/// Text is read by its first character: `0` and `1` are the levels, `z` is high
/// impedance, `-` is "don't care", `w`, `h` and `l` are weak, and anything else
/// is undefined. Of the numbers, zero and one are the levels.
pub proof fn values_are_bits(value: VariableValue)
    ensures
        match value {
            VariableValue::String(shown) => if shown@.len() == 0 {
                input::bit_of_value(value) == Bit::Undef
            } else {
                let c = shown@[0];
                let bit = input::bit_of_value(value);
                &&& bit == Bit::Zero <==> c == '0'
                &&& bit == Bit::One <==> c == '1'
                &&& bit == Bit::HighImp <==> c == 'z' || c == 'Z'
                &&& bit == Bit::DontCare <==> c == '-'
                &&& bit == Bit::Weak <==> c == 'w' || c == 'W' || c == 'h' || c == 'H' || c == 'l'
                    || c == 'L'
            },
            VariableValue::BigUint(bytes) => {
                let bit = input::bit_of_value(value);
                &&& bit == Bit::Zero <==> input::little_endian(bytes@) == 0
                &&& bit == Bit::One <==> input::little_endian(bytes@) == 1
                &&& bit == Bit::Zero || bit == Bit::One || bit == Bit::Undef
            },
        },
{
}

/// A rising edge is any change to one, and a falling edge any change to zero.
pub proof fn edges_lead_to_a_level(previous: Bit, current: Bit)
    ensures
        state::is_edge(previous, current, Edge::Rising) <==> current == Bit::One && previous
            != Bit::One,
        state::is_edge(previous, current, Edge::Falling) <==> current == Bit::Zero && previous
            != Bit::Zero,
{
}

/// In pulse mode a frame begins with channel 0 wherever the frame sync comes to
/// the level of its edge, also with its first value. In level mode every change
/// to a level begins a slot: that of channel 0 where the level is the active
/// one, and that of channel 1 where it is the other.
pub proof fn frame_sync_begins_slots(params: ParamsView, previous: Option<Bit>, bit: Bit)
    ensures
        ({
            let changed = previous != Some(bit);
            let begun = state::begins_slot(params, previous, bit);
            match params.frame_mode {
                FrameSyncMode::Pulse => {
                    &&& params.frame_edge == Edge::Rising ==> (begun is Some <==> changed && bit
                        == Bit::One)
                    &&& params.frame_edge == Edge::Falling ==> (begun is Some <==> changed && bit
                        == Bit::Zero)
                    &&& begun matches Some(channel) ==> channel == 0
                },
                FrameSyncMode::Level => {
                    &&& begun is Some <==> changed && is_level(bit)
                    &&& begun == Some(0nat) <==> changed && is_level(bit) && (bit == Bit::One)
                        == params.frame_active_high
                    &&& begun == Some(1nat) <==> changed && is_level(bit) && (bit == Bit::One)
                        != params.frame_active_high
                },
            }
        }),
{
}

/// The clock cycles of a slot.
pub open spec fn slot_width(params: ParamsView) -> nat {
    match params.slot_width {
        Some(width) => width as nat,
        None => params.bits as nat,
    }
}

/// Slots follow one another from the end of the offset on. A sample stands at
/// the beginning of its slot or, justified to the right, at its end.
pub proof fn slots_are_laid_out(params: ParamsView, channel: nat)
    requires
        params::limits_fault(params) is None,
        params.offset + slot_width(params) <= u32::MAX,
    ensures
        params.justification == Justification::Left ==> capture_laws::first_tick(params, channel)
            == params.offset + channel * slot_width(params),
        params.justification == Justification::Right ==> capture_laws::first_tick(params, channel)
            + params.bits == params.offset + (channel + 1) * slot_width(params),
{
    let width = slot_width(params);
    assert((channel + 1) * width == channel * width + width) by (nonlinear_arith);
}

/// The samples of up to 63 bits have a range for plotting, and longer ones have
/// none.
pub proof fn ranges_are_shown(params: ParamsView)
    ensures
        params.bits <= 63 ==> state::sample_range(params) == Some(
            NumericRange { bits: params.bits, signed: params.signed },
        ),
        params.bits > 63 ==> state::sample_range(params) is None,
{
}

/// A frame sync that comes before the frame has been read to its end reports
/// it, from its beginning up to the frame sync; the samples that were read
/// stay. The hundred-and-first report says that there are more, and then there
/// are none.
pub proof fn unfinished_frames_are_reported(
    params: ParamsView,
    before: StateView,
    sync: Event,
)
    requires
        sync.role == InputRole::FrameSync,
        state::begins_slot(params, before.frame, sync.bit) is Some,
    ensures
        ({
            let after = state::after_event(params, before, sync);
            let report = |words: Seq<char>|
                ItemView {
                    start: before.frame_start,
                    end: sync.time,
                    value: ValueView::Text(words),
                };
            &&& after.rows == before.rows
            &&& after.active && after.frame_start == sync.time
            &&& after.samples == 0 && after.read.len() == 0
            &&& !before.active || !params.show_errors || before.errors.len() > 100 ==> after.errors
                == before.errors
            &&& before.active && params.show_errors && before.errors.len() == 100 ==> after.errors
                == before.errors.push(report("further frame errors suppressed"@))
            &&& before.active && params.show_errors && before.errors.len() < 100
                && params.frame_mode == FrameSyncMode::Pulse ==> after.errors == before.errors.push(
                report(
                    "incomplete frame: "@ + text::decimal(before.samples) + " of "@ + text::decimal(
                        params.channels as nat,
                    ) + " channels"@,
                ),
            )
            &&& before.active && params.show_errors && before.errors.len() < 100
                && params.frame_mode == FrameSyncMode::Level ==> after.errors == before.errors.push(
                report("incomplete sample"@),
            )
        }),
{
}

/// The events of one input.
pub open spec fn events_of(role: InputRole, events: Seq<Event>) -> Seq<Event>
    decreases events.len(),
{
    if events.len() == 0 {
        Seq::empty()
    } else if events[0].role == role {
        seq![events[0]] + events_of(role, events.drop_first())
    } else {
        events_of(role, events.drop_first())
    }
}

/// The events that changes of an input make.
pub open spec fn changes_made(
    role: InputRole,
    changes: Seq<(u64, VariableValue)>,
    from: nat,
) -> Seq<Event> {
    Seq::new(
        (changes.len() - from) as nat,
        |i: int|
            Event {
                role,
                time: changes[from + i].0,
                bit: input::bit_of_value(changes[from + i].1),
            },
    )
}

/// Every change of an input is read exactly once, in order, and nothing else
/// is.
pub proof fn all_changes_are_read(changes: Changes, at: Progress)
    requires
        at.frame <= changes.frame.len(),
        at.data <= changes.data.len(),
        at.clock <= changes.clock.len(),
    ensures
        ({
            let events = clocked_serial::events_from(changes, at);
            &&& events_of(InputRole::FrameSync, events) == changes_made(
                InputRole::FrameSync,
                changes.frame,
                at.frame,
            )
            &&& events_of(InputRole::Data, events) == changes_made(
                InputRole::Data,
                changes.data,
                at.data,
            )
            &&& events_of(InputRole::BitClk, events) == changes_made(
                InputRole::BitClk,
                changes.clock,
                at.clock,
            )
        }),
    decreases clocked_serial::left(changes, at),
{
    let events = clocked_serial::events_from(changes, at);
    if let Some((first, next)) = clocked_serial::next_event(changes, at) {
        all_changes_are_read(changes, next);
        assert(events.drop_first() =~= clocked_serial::events_from(changes, next));
        assert(events_of(InputRole::FrameSync, events) =~= changes_made(
            InputRole::FrameSync,
            changes.frame,
            at.frame,
        ));
        assert(events_of(InputRole::Data, events) =~= changes_made(
            InputRole::Data,
            changes.data,
            at.data,
        ));
        assert(events_of(InputRole::BitClk, events) =~= changes_made(
            InputRole::BitClk,
            changes.clock,
            at.clock,
        ));
    } else {
        assert(changes_made(InputRole::FrameSync, changes.frame, at.frame) =~= Seq::empty());
        assert(changes_made(InputRole::Data, changes.data, at.data) =~= Seq::empty());
        assert(changes_made(InputRole::BitClk, changes.clock, at.clock) =~= Seq::empty());
    }
}

/// A data line that has not changed yet is low.
pub proof fn data_is_low_at_first(params: ParamsView, events: Seq<Event>)
    requires
        forall|i: int| 0 <= i < events.len() ==> (#[trigger] events[i]).role != InputRole::Data,
    ensures
        state::after_events(params, state::initial(params), events).data == Bit::Zero,
    decreases events.len(),
{
    if events.len() > 0 {
        let front = events.drop_last();
        assert forall|i: int| 0 <= i < front.len() implies (#[trigger] front[i]).role
            != InputRole::Data by {
            assert(front[i] == events[i]);
        }
        data_is_low_at_first(params, front);
        assert(events.last() == events[events.len() - 1]);
    }
}

} // verus!
