//! What holds of the clocked serial engine as a whole.
use vstd::prelude::*;
#[allow(unused_imports)]
use vstd::arithmetic::power2;
use crate::bits;
use crate::decoders::engines::clocked_serial;
use crate::decoders::engines::clocked_serial::params;
use crate::decoders::engines::clocked_serial::params::ParamsView;
use crate::decoders::engines::clocked_serial::state;
use crate::decoders::engines::clocked_serial::state::{Event, InputRole, StateView};
use crate::decoders::engines::clocked_serial::{Changes, Progress};
use crate::decoders::input;
use crate::decoders::input::{Bit, SignalView};
use crate::decoders::value::{BitOrder, NumericRange, ValueView};

verus! {

/// Reading events one after another is reading them all.
pub proof fn events_in_parts(params: ParamsView, state: StateView, a: Seq<Event>, b: Seq<Event>)
    ensures
        state::after_events(params, state, a + b) == state::after_events(
            params,
            state::after_events(params, state, a),
            b,
        ),
    decreases b.len(),
{
    if b.len() == 0 {
        assert(a + b =~= a);
    } else {
        events_in_parts(params, state, a, b.drop_last());
        assert((a + b).drop_last() =~= a + b.drop_last());
    }
}

/// Whether a state can come up while decoding.
pub open spec fn reachable(params: ParamsView, state: StateView) -> bool {
    &&& state.rows.len() == params.channels
    &&& state.slot < params.channels
    &&& state.read.len() < params.bits
    &&& state.errors.len() <= state::MAX_FRAME_ERRORS + 1
    &&& !params.show_errors ==> state.errors.len() == 0
    &&& forall|channel: int, i: int|
        0 <= channel < state.rows.len() && 0 <= i < state.rows[channel].len() ==> is_sample(
            params,
            (#[trigger] state.rows[channel][i]).value,
        )
}

/// Whether a value can be that of a sample: it is no text, and an integer has
/// the width of the samples and lies in their range.
pub open spec fn is_sample(params: ParamsView, value: ValueView) -> bool {
    match value {
        ValueView::Integer { value, bits } => {
            let range = NumericRange {
                bits: params.bits,
                signed: params.signed || params.bits == 64,
            };
            bits == params.bits && range.min() <= value <= range.max()
        },
        ValueView::Text(_) => false,
        _ => true,
    }
}

/// The value of a sample lies in the range of the samples.
pub proof fn samples_in_range(params: ParamsView, read: Seq<Bit>)
    requires
        0 < params.bits <= 64,
        read.len() == params.bits,
    ensures
        is_sample(params, state::sample_value(params, read)),
{
    state::raw_value_range(params, read);
    bits::pow2_next((params.bits - 1) as nat);
}

proof fn event_keeps_reachable(params: ParamsView, before: StateView, event: Event)
    requires
        params::limits_fault(params) is None,
        reachable(params, before),
    ensures
        reachable(params, state::after_event(params, before, event)),
{
    let after = state::after_event(params, before, event);
    if event.role == InputRole::BitClk {
        let read = before.read.push(before.data);
        if read.len() == params.bits {
            samples_in_range(params, read);
        }
        assert forall|channel: int, i: int|
            0 <= channel < after.rows.len() && 0 <= i < after.rows[channel].len() implies is_sample(
            params,
            (#[trigger] after.rows[channel][i]).value,
        ) by {
            if i < before.rows[channel].len() {
                assert(after.rows[channel][i] == before.rows[channel][i]);
            }
        }
    } else {
        assert(after.rows == before.rows);
    }
}

/// Whatever the events are: there is one row for each channel, every sample
/// lies in the range of the samples, and no more than a hundred frame errors
/// are listed, with one more item to say so.
pub proof fn events_keep_reachable(params: ParamsView, events: Seq<Event>)
    requires
        params::limits_fault(params) is None,
    ensures
        reachable(params, state::after_events(params, state::initial(params), events)),
    decreases events.len(),
{
    if events.len() > 0 {
        events_keep_reachable(params, events.drop_last());
        event_keeps_reachable(
            params,
            state::after_events(params, state::initial(params), events.drop_last()),
            events.last(),
        );
    }
}

/// Decoding gives as many rows as the parameters ask for.
pub proof fn row_count_is_exact(params: ParamsView, inputs: Seq<SignalView>)
    requires
        clocked_serial::decoded_rows(params, inputs) is Ok,
    ensures
        clocked_serial::decoded_rows(params, inputs)->Ok_0.len() == clocked_serial::rows_shown(
            params,
        ),
{
    let events = clocked_serial::events_from(
        clocked_serial::changes_of(params, inputs),
        clocked_serial::at_start(),
    );
    events_keep_reachable(params, events);
}

/// A change of the frame sync that begins no slot may as well come later: what
/// is decoded does not depend on when it happens.
pub proof fn inactive_frame_sync_commutes(
    params: ParamsView,
    before: StateView,
    inactive: Event,
    other: Event,
)
    requires
        inactive.role == InputRole::FrameSync,
        other.role != InputRole::FrameSync,
        state::begins_slot(params, before.frame, inactive.bit) is None,
    ensures
        state::after_event(params, state::after_event(params, before, inactive), other)
            == state::after_event(params, state::after_event(params, before, other), inactive),
{
    let first = state::after_event(params, state::after_event(params, before, inactive), other);
    let last = state::after_event(params, state::after_event(params, before, other), inactive);
    assert(first =~= last);
}

/// The place of an input among simultaneous changes.
pub open spec fn rank(role: InputRole) -> int {
    match role {
        InputRole::FrameSync => 0,
        InputRole::Data => 1,
        InputRole::BitClk => 2,
    }
}

/// Whether events are in the order of their times, and simultaneous ones in the
/// order frame sync, data, bit clock.
pub open spec fn in_reading_order(events: Seq<Event>) -> bool {
    forall|i: int, j: int|
        0 <= i < j < events.len() ==> (#[trigger] events[i]).time < (#[trigger] events[j]).time || (
        events[i].time == events[j].time && rank(events[i].role) <= rank(events[j].role))
}

/// Events are read in the order of their times; of simultaneous ones the frame
/// sync comes first, and the bit clock last.
pub proof fn events_are_in_order(changes: Changes)
    requires
        input::in_time_order(changes.frame),
        input::in_time_order(changes.data),
        input::in_time_order(changes.clock),
    ensures
        in_reading_order(clocked_serial::events_from(changes, clocked_serial::at_start())),
{
    ordered_from(changes, clocked_serial::at_start());
}

spec fn follows(event: Event, changes: Changes, at: Progress) -> bool {
    &&& at.frame < changes.frame.len() ==> event.time < changes.frame[at.frame as int].0 || (
    event.time == changes.frame[at.frame as int].0 && rank(event.role) <= 0)
    &&& at.data < changes.data.len() ==> event.time < changes.data[at.data as int].0 || (event.time
        == changes.data[at.data as int].0 && rank(event.role) <= 1)
    &&& at.clock < changes.clock.len() ==> event.time < changes.clock[at.clock as int].0 || (
    event.time == changes.clock[at.clock as int].0 && rank(event.role) <= 2)
}

proof fn ordered_from(changes: Changes, at: Progress)
    requires
        input::in_time_order(changes.frame),
        input::in_time_order(changes.data),
        input::in_time_order(changes.clock),
        at.frame <= changes.frame.len(),
        at.data <= changes.data.len(),
        at.clock <= changes.clock.len(),
    ensures
        in_reading_order(clocked_serial::events_from(changes, at)),
        forall|event: Event, i: int|
            follows(event, changes, at) && 0 <= i < clocked_serial::events_from(changes, at).len()
                ==> event.time < (#[trigger] clocked_serial::events_from(changes, at)[i]).time || (
            event.time == clocked_serial::events_from(changes, at)[i].time && rank(
                #[trigger] event.role,
            ) <= rank(clocked_serial::events_from(changes, at)[i].role)),
    decreases clocked_serial::left(changes, at),
{
    if let Some((first, next)) = clocked_serial::next_event(changes, at) {
        ordered_from(changes, next);
        let rest = clocked_serial::events_from(changes, next);
        let all = clocked_serial::events_from(changes, at);
        assert(follows(first, changes, next)) by {
            if next.frame < changes.frame.len() && at.frame < next.frame {
                assert(changes.frame[at.frame as int].0 <= changes.frame[next.frame as int].0);
            }
            if next.data < changes.data.len() && at.data < next.data {
                assert(changes.data[at.data as int].0 <= changes.data[next.data as int].0);
            }
            if next.clock < changes.clock.len() && at.clock < next.clock {
                assert(changes.clock[at.clock as int].0 <= changes.clock[next.clock as int].0);
            }
        }
        assert forall|i: int, j: int| 0 <= i < j < all.len() implies (#[trigger] all[i]).time < (
        #[trigger] all[j]).time || (all[i].time == all[j].time && rank(all[i].role) <= rank(
            all[j].role,
        )) by {
            assert(all[j] == rest[j - 1]);
            if i > 0 {
                assert(all[i] == rest[i - 1]);
            } else {
                assert(all[i] == first);
            }
        }
        assert forall|event: Event, i: int|
            follows(event, changes, at) && 0 <= i < all.len() implies event.time < (
        #[trigger] all[i]).time || (event.time == all[i].time && rank(#[trigger] event.role)
            <= rank(all[i].role)) by {
            assert(event.time < first.time || (event.time == first.time && rank(event.role) <= rank(
                first.role,
            )));
            if i > 0 {
                assert(all[i] == rest[i - 1]);
                assert(first.time < rest[i - 1].time || (first.time == rest[i - 1].time && rank(
                    first.role,
                ) <= rank(rest[i - 1].role)));
            }
        }
    }
}

/// The bits of a number as they are sent in a bit order.
pub open spec fn bits_of(order: BitOrder, raw: nat, count: nat) -> Seq<Bit>
    decreases count,
{
    if count == 0 {
        Seq::empty()
    } else {
        let low = if raw % 2 == 1 {
            Bit::One
        } else {
            Bit::Zero
        };
        let rest = bits_of(order, raw / 2, (count - 1) as nat);
        match order {
            BitOrder::MsbFirst => rest.push(low),
            BitOrder::LsbFirst => seq![low] + rest,
        }
    }
}

proof fn bits_are_levels(order: BitOrder, raw: nat, count: nat)
    ensures
        bits_of(order, raw, count).len() == count,
        forall|i: int|
            0 <= i < count ==> (#[trigger] bits_of(order, raw, count)[i] == Bit::Zero || bits_of(
                order,
                raw,
                count,
            )[i] == Bit::One),
    decreases count,
{
    if count > 0 {
        bits_are_levels(order, raw / 2, (count - 1) as nat);
        let rest = bits_of(order, raw / 2, (count - 1) as nat);
        let all = bits_of(order, raw, count);
        assert forall|i: int| 0 <= i < count implies (#[trigger] all[i] == Bit::Zero || all[i]
            == Bit::One) by {
            match order {
                BitOrder::MsbFirst => {
                    if i < count - 1 {
                        assert(all[i] == rest[i]);
                    }
                },
                BitOrder::LsbFirst => {
                    if i > 0 {
                        assert(all[i] == rest[i - 1]);
                    }
                },
            }
        }
    }
}

proof fn lsb_first(low: Bit, rest: Seq<Bit>)
    ensures
        state::lsb_value(seq![low] + rest) == state::digit(low) + 2 * state::lsb_value(rest),
    decreases rest.len(),
{
    let all = seq![low] + rest;
    if rest.len() == 0 {
        assert(all.drop_last() =~= Seq::<Bit>::empty());
        assert(state::lsb_value(Seq::<Bit>::empty()) == 0);
        power2::lemma2_to64();
        assert(all.last() == low);
        vstd::arithmetic::mul::lemma_mul_basics(state::digit(low) as int);
        assert(state::lsb_value(all) == state::digit(low));
        assert(rest =~= Seq::<Bit>::empty());
    } else {
        lsb_first(low, rest.drop_last());
        assert(all.drop_last() =~= seq![low] + rest.drop_last());
        bits::pow2_next((rest.len() - 1) as nat);
        let digit = state::digit(rest.last()) as int;
        let weight = power2::pow2((rest.len() - 1) as nat) as int;
        assert(digit * (2 * weight) == 2 * (digit * weight)) by (nonlinear_arith);
    }
}

/// A number that is sent is the number that is read, in either bit order.
pub proof fn numbers_read_back(params: ParamsView, raw: nat, count: nat)
    requires
        raw < power2::pow2(count),
    ensures
        state::raw_value(params, bits_of(params.bit_order, raw, count)) == raw,
    decreases count,
{
    if count == 0 {
        power2::lemma2_to64();
    } else {
        bits::pow2_next((count - 1) as nat);
        numbers_read_back(params, raw / 2, (count - 1) as nat);
        let rest = bits_of(params.bit_order, raw / 2, (count - 1) as nat);
        let all = bits_of(params.bit_order, raw, count);
        match params.bit_order {
            BitOrder::MsbFirst => {
                assert(all.drop_last() =~= rest);
            },
            BitOrder::LsbFirst => {
                lsb_first(all[0], rest);
            },
        }
    }
}

/// A sample that is sent is the sample that is read: every value in the range of
/// the samples comes back as it was, signed or not.
pub proof fn samples_read_back(params: ParamsView, sample: int)
    requires
        0 < params.bits <= 64,
        ({
            let range = NumericRange {
                bits: params.bits,
                signed: params.signed || params.bits == 64,
            };
            range.min() <= sample <= range.max()
        }),
    ensures
        state::sample_value(
            params,
            bits_of(
                params.bit_order,
                bits::low_bits(sample, params.bits as nat),
                params.bits as nat,
            ),
        ) == (ValueView::Integer { value: sample, bits: params.bits as nat }),
{
    let count = params.bits as nat;
    let raw = bits::low_bits(sample, count);
    let modulus = power2::pow2(count) as int;
    bits::pow2_next((params.bits - 1) as nat);
    if sample < 0 {
        vstd::arithmetic::div_mod::lemma_mod_add_multiples_vanish(sample, modulus);
        vstd::arithmetic::div_mod::lemma_small_mod((sample + modulus) as nat, modulus as nat);
    } else {
        vstd::arithmetic::div_mod::lemma_small_mod(sample as nat, modulus as nat);
    }
    numbers_read_back(params, raw, count);
    bits_are_levels(params.bit_order, raw, count);
    let sent = bits_of(params.bit_order, raw, count);
    assert(!sent.contains(Bit::HighImp));
    assert(!sent.contains(Bit::Undef));
    assert(!sent.contains(Bit::Weak));
    assert(!sent.contains(Bit::DontCare));
}

} // verus!
