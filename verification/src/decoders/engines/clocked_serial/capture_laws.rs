//! What holds of the frames of a capture.
use vstd::prelude::*;
use crate::bits;
use crate::decoders::engines::clocked_serial;
use crate::decoders::engines::clocked_serial::laws;
use crate::decoders::engines::clocked_serial::params;
use crate::decoders::engines::clocked_serial::params::{FrameSyncMode, ParamsView};
use crate::decoders::engines::clocked_serial::state;
use crate::decoders::engines::clocked_serial::state::{Event, InputRole, StateView};
#[allow(unused_imports)]
use crate::decoders::error::ErrorView;
use crate::decoders::input::{Bit, SignalView};
use crate::decoders::value::{ItemView, NumericRange, RowView, ValueView};
use crate::text;

verus! {

/// The last value of an input after events, or the one before them.
pub open spec fn last_value(role: InputRole, before: Option<Bit>, events: Seq<Event>) -> Option<Bit>
    decreases events.len(),
{
    if events.len() == 0 {
        before
    } else if events.last().role == role {
        Some(events.last().bit)
    } else {
        last_value(role, before, events.drop_last())
    }
}

/// The value of the data line after events.
pub open spec fn data_after(before: Bit, events: Seq<Event>) -> Bit {
    last_value(InputRole::Data, Some(before), events).unwrap()
}

/// A tick of the bit clock: the value that the data line has at the clock's
/// sampling edge, and the time of the edge.
pub struct Tick {
    pub bit: Bit,
    pub time: u64,
}

/// The ticks of the bit clock in events, which begin with the given values of
/// the bit clock and of the data line.
pub open spec fn ticks(
    params: ParamsView,
    clock: Option<Bit>,
    data: Bit,
    events: Seq<Event>,
) -> Seq<Tick>
    decreases events.len(),
{
    if events.len() == 0 {
        Seq::empty()
    } else {
        let front = events.drop_last();
        let rest = ticks(params, clock, data, front);
        let event = events.last();
        match last_value(InputRole::BitClk, clock, front) {
            Some(previous) => if event.role == InputRole::BitClk && state::is_edge(
                previous,
                event.bit,
                params.clock_edge,
            ) {
                rest.push(Tick { bit: data_after(data, front), time: event.time })
            } else {
                rest
            },
            None => rest,
        }
    }
}

/// Whether no event begins a slot, the frame sync having a value before them.
pub open spec fn quiet(params: ParamsView, frame: Option<Bit>, events: Seq<Event>) -> bool
    decreases events.len(),
{
    events.len() == 0 || {
        let front = events.drop_last();
        &&& quiet(params, frame, front)
        &&& events.last().role == InputRole::FrameSync ==> state::begins_slot(
            params,
            last_value(InputRole::FrameSync, frame, front),
            events.last().bit,
        ) is None
    }
}

/// The state after a tick, but for the values of the inputs.
pub open spec fn after_tick(params: ParamsView, before: StateView, tick: Tick) -> StateView {
    if !before.active {
        before
    } else if before.padding > 0 {
        StateView { padding: (before.padding - 1) as nat, ..before }
    } else {
        StateView {
            data: before.data,
            ..state::after_bit(params, StateView { data: tick.bit, ..before }, tick.time)
        }
    }
}

/// The state after ticks, but for the values of the inputs.
pub open spec fn after_ticks(params: ParamsView, before: StateView, read: Seq<Tick>) -> StateView
    decreases read.len(),
{
    if read.len() == 0 {
        before
    } else {
        after_tick(params, after_ticks(params, before, read.drop_last()), read.last())
    }
}

proof fn ticks_in_parts(params: ParamsView, before: StateView, a: Seq<Tick>, b: Seq<Tick>)
    ensures
        after_ticks(params, before, a + b) == after_ticks(
            params,
            after_ticks(params, before, a),
            b,
        ),
    decreases b.len(),
{
    if b.len() == 0 {
        assert(a + b =~= a);
    } else {
        ticks_in_parts(params, before, a, b.drop_last());
        assert((a + b).drop_last() =~= a + b.drop_last());
    }
}

/// The state after events, as far as its inputs go.
pub open spec fn with_inputs(state: StateView, before: StateView, events: Seq<Event>) -> StateView {
    StateView {
        clock: last_value(InputRole::BitClk, before.clock, events),
        frame: last_value(InputRole::FrameSync, before.frame, events),
        data: data_after(before.data, events),
        ..state
    }
}

proof fn data_is_known(before: Bit, events: Seq<Event>)
    ensures
        last_value(InputRole::Data, Some(before), events) is Some,
    decreases events.len(),
{
    if events.len() > 0 {
        data_is_known(before, events.drop_last());
    }
}

/// While no slot begins, only the ticks of the bit clock matter: neither when
/// the data line changes between them, nor how often, nor what the frame sync
/// does meanwhile.
pub proof fn only_ticks_matter(params: ParamsView, before: StateView, events: Seq<Event>)
    requires
        quiet(params, before.frame, events),
    ensures
        state::after_events(params, before, events) == with_inputs(
            after_ticks(params, before, ticks(params, before.clock, before.data, events)),
            before,
            events,
        ),
    decreases events.len(),
{
    let all = ticks(params, before.clock, before.data, events);
    if events.len() > 0 {
        let front = events.drop_last();
        let event = events.last();
        only_ticks_matter(params, before, front);
        data_is_known(before.data, front);
        let rest = ticks(params, before.clock, before.data, front);
        if all.len() > rest.len() {
            assert(all.drop_last() =~= rest);
        }
        let there = state::after_events(params, before, front);
        let after = state::after_event(params, there, event);
        assert(after =~= with_inputs(after_ticks(params, before, all), before, events));
    } else {
        assert(with_inputs(before, before, events) =~= before);
    }
}

proof fn ticks_pass(params: ParamsView, before: StateView, read: Seq<Tick>)
    requires
        !before.active,
    ensures
        after_ticks(params, before, read) == before,
    decreases read.len(),
{
    if read.len() > 0 {
        ticks_pass(params, before, read.drop_last());
    }
}

proof fn ticks_are_skipped(params: ParamsView, before: StateView, read: Seq<Tick>)
    requires
        before.active,
        read.len() <= before.padding,
    ensures
        after_ticks(params, before, read) == (StateView {
            padding: (before.padding - read.len()) as nat,
            ..before
        }),
    decreases read.len(),
{
    if read.len() > 0 {
        ticks_are_skipped(params, before, read.drop_last());
    } else {
        assert(before =~= StateView { padding: before.padding, ..before });
    }
}

/// The bits of ticks.
pub open spec fn bits_at(read: Seq<Tick>) -> Seq<Bit> {
    Seq::new(read.len(), |i: int| read[i].bit)
}

proof fn bits_are_read(params: ParamsView, before: StateView, read: Seq<Tick>)
    requires
        before.active,
        before.padding == 0,
        before.read.len() == 0,
        read.len() < params.bits,
    ensures
        after_ticks(params, before, read) == (StateView { read: bits_at(read), ..before }),
    decreases read.len(),
{
    if read.len() > 0 {
        bits_are_read(params, before, read.drop_last());
        assert(bits_at(read.drop_last()).push(read.last().bit) =~= bits_at(read));
        assert(after_ticks(params, before, read) =~= StateView { read: bits_at(read), ..before });
    } else {
        assert(bits_at(read) =~= before.read);
        assert(before =~= StateView { read: bits_at(read), ..before });
    }
}

/// The sample that ticks are read as, in a frame or slot that began at `start`.
pub open spec fn sample_at(params: ParamsView, start: u64, read: Seq<Tick>) -> ItemView {
    ItemView { start, end: read.last().time, value: state::sample_value(params, bits_at(read)) }
}

/// Ticks that carry the bits of a sample are read as that sample: every value in
/// the range of the samples comes back as it was sent.
pub proof fn sent_sample_is_read(params: ParamsView, start: u64, read: Seq<Tick>, sample: int)
    requires
        0 < params.bits <= 64,
        ({
            let range = NumericRange {
                bits: params.bits,
                signed: params.signed || params.bits == 64,
            };
            range.min() <= sample <= range.max()
        }),
        bits_at(read) == laws::bits_of(
            params.bit_order,
            bits::low_bits(sample, params.bits as nat),
            params.bits as nat,
        ),
    ensures
        sample_at(params, start, read) == (ItemView {
            start,
            end: read.last().time,
            value: ValueView::Integer { value: sample, bits: params.bits as nat },
        }),
{
    laws::samples_read_back(params, sample);
}

/// The state after a sample.
pub open spec fn after_sample(params: ParamsView, before: StateView, sample: ItemView) -> StateView {
    let slot = before.slot as int;
    let more = params.frame_mode == FrameSyncMode::Pulse && before.slot + 1 < params.channels;
    StateView {
        active: more,
        slot: if more {
            before.slot + 1
        } else {
            before.slot
        },
        padding: if more {
            state::unused_cycles(params)
        } else {
            0
        },
        read: Seq::empty(),
        samples: before.samples + 1,
        rows: before.rows.update(slot, before.rows[slot].push(sample)),
        ..before
    }
}

/// As many ticks as a sample has bits are read as one sample of the slot that
/// was begun, from the frame's start to the last tick.
pub proof fn word_is_read(params: ParamsView, before: StateView, read: Seq<Tick>)
    requires
        params.bits > 0,
        before.active,
        before.padding == 0,
        before.read.len() == 0,
        read.len() == params.bits,
    ensures
        after_ticks(params, before, read) == after_sample(
            params,
            before,
            sample_at(params, before.frame_start, read),
        ),
{
    bits_are_read(params, before, read.drop_last());
    assert(bits_at(read.drop_last()).push(read.last().bit) =~= bits_at(read));
    assert(after_ticks(params, before, read) =~= after_sample(
        params,
        before,
        sample_at(params, before.frame_start, read),
    ));
}

/// The tick of a frame that carries the first bit of a channel's sample.
pub open spec fn first_tick(params: ParamsView, channel: nat) -> nat {
    state::leading_cycles(params) + channel * (params.bits as nat + state::unused_cycles(params))
}

/// The ticks of a frame that carry a channel's sample.
pub open spec fn word_ticks(params: ParamsView, read: Seq<Tick>, channel: nat) -> Seq<Tick> {
    read.subrange(
        first_tick(params, channel) as int,
        (first_tick(params, channel) + params.bits) as int,
    )
}

/// The ticks that a frame takes.
pub open spec fn frame_ticks(params: ParamsView) -> nat {
    first_tick(params, (params.channels - 1) as nat) + params.bits as nat
}

proof fn ticks_in_order(params: ParamsView, a: nat, b: nat)
    requires
        a < b,
    ensures
        first_tick(params, a) + params.bits + state::unused_cycles(params) <= first_tick(params, b),
        first_tick(params, a + 1) == first_tick(params, a) + params.bits + state::unused_cycles(
            params,
        ),
{
    let width = params.bits as nat + state::unused_cycles(params);
    assert((a + 1) * width == a * width + width) by (nonlinear_arith);
    assert((a + 1) * width <= b * width) by (nonlinear_arith)
        requires
            a + 1 <= b,
    ;
}

/// The state that a slot begins with.
spec fn begun(params: ParamsView, start: StateView, channel: nat) -> bool {
    &&& start.rows.len() == params.channels
    &&& start.active
    &&& start.slot == channel
    &&& start.padding == state::leading_cycles(params)
    &&& start.read.len() == 0
}

proof fn slots_are_read(params: ParamsView, start: StateView, read: Seq<Tick>, n: nat)
    requires
        params::limits_fault(params) is None,
        params.frame_mode == FrameSyncMode::Pulse,
        begun(params, start, 0),
        0 < n <= params.channels,
        read.len() >= frame_ticks(params),
    ensures
        ({
            let after = after_ticks(
                params,
                start,
                read.take((first_tick(params, (n - 1) as nat) + params.bits) as int),
            );
            &&& after == (StateView {
                active: n < params.channels,
                slot: if n < params.channels {
                    n
                } else {
                    (n - 1) as nat
                },
                padding: if n < params.channels {
                    state::unused_cycles(params)
                } else {
                    0
                },
                read: Seq::empty(),
                samples: start.samples + n,
                rows: after.rows,
                ..start
            })
            &&& after.rows.len() == params.channels
            &&& forall|c: int|
                0 <= c < params.channels ==> #[trigger] after.rows[c] == (if c < n {
                    start.rows[c].push(
                        sample_at(params, start.frame_start, word_ticks(params, read, c as nat)),
                    )
                } else {
                    start.rows[c]
                })
        }),
    decreases n,
{
    let m = (n - 1) as nat;
    let from = first_tick(params, m) as int;
    let to = from + params.bits;
    if n < params.channels {
        ticks_in_order(params, m, (params.channels - 1) as nat);
    }
    assert(to <= read.len());
    let before = if m == 0 {
        start
    } else {
        after_ticks(
            params,
            start,
            read.take((first_tick(params, (m - 1) as nat) + params.bits) as int),
        )
    };
    let at = if m == 0 {
        0
    } else {
        first_tick(params, (m - 1) as nat) + params.bits
    };
    if m == 0 {
        assert(read.take(0) =~= Seq::<Tick>::empty());
        assert(0 * (params.bits as nat + state::unused_cycles(params)) == 0);
    } else {
        slots_are_read(params, start, read, m);
        ticks_in_order(params, (m - 1) as nat, m);
    }
    assert(after_ticks(params, start, read.take(at as int)) == before);
    let idle = read.subrange(at as int, from);
    let word = word_ticks(params, read, m);
    ticks_are_skipped(params, before, idle);
    let ready = after_ticks(params, before, idle);
    word_is_read(params, ready, word);
    assert(read.take(at as int) + idle =~= read.take(from));
    assert(read.take(from) + word =~= read.take(to));
    ticks_in_parts(params, start, read.take(at as int), idle);
    ticks_in_parts(params, start, read.take(from), word);
    let after = after_ticks(params, start, read.take(to));
    assert forall|c: int| 0 <= c < params.channels implies #[trigger] after.rows[c] == (if c < n {
        start.rows[c].push(
            sample_at(params, start.frame_start, word_ticks(params, read, c as nat)),
        )
    } else {
        start.rows[c]
    }) by {
        if m > 0 {
            assert(before.rows[c] == (if c < m {
                start.rows[c].push(
                    sample_at(params, start.frame_start, word_ticks(params, read, c as nat)),
                )
            } else {
                start.rows[c]
            }));
        }
    }
}

/// A frame sync event, and what follows it.
pub struct Frame {
    pub sync: Event,
    pub body: Seq<Event>,
}

/// The events of a frame.
pub open spec fn frame_events(frame: Frame) -> Seq<Event> {
    seq![frame.sync] + frame.body
}

/// Whether a frame follows on a value of the frame sync: its first event begins
/// a slot, and none of the others does.
pub open spec fn follows_on(params: ParamsView, value: Option<Bit>, frame: Frame) -> bool {
    &&& frame.sync.role == InputRole::FrameSync
    &&& state::begins_slot(params, value, frame.sync.bit) is Some
    &&& quiet(params, Some(frame.sync.bit), frame.body)
}

/// The state in which the frame sync event of a frame is read.
spec fn started(params: ParamsView, before: StateView, frame: Frame) -> StateView {
    state::after_event(params, before, frame.sync)
}

proof fn frame_by_ticks(params: ParamsView, before: StateView, frame: Frame)
    requires
        follows_on(params, before.frame, frame),
    ensures
        state::after_events(params, before, frame_events(frame)) == with_inputs(
            after_ticks(
                params,
                started(params, before, frame),
                ticks(params, before.clock, before.data, frame.body),
            ),
            before,
            frame_events(frame),
        ),
{
    let start = started(params, before, frame);
    let first = seq![frame.sync];
    assert(first.drop_last() =~= Seq::<Event>::empty());
    assert(state::after_events(params, before, Seq::<Event>::empty()) == before);
    assert(state::after_events(params, before, first) == start);
    laws::events_in_parts(params, before, first, frame.body);
    only_ticks_matter(params, start, frame.body);
    last_in_parts(InputRole::BitClk, before.clock, first, frame.body);
    last_in_parts(InputRole::FrameSync, before.frame, first, frame.body);
    last_in_parts(InputRole::Data, Some(before.data), first, frame.body);
    assert(last_value(InputRole::BitClk, before.clock, Seq::<Event>::empty()) == before.clock);
    assert(last_value(InputRole::Data, Some(before.data), Seq::<Event>::empty()) == Some(
        before.data,
    ));
    assert(last_value(InputRole::BitClk, before.clock, first) == before.clock);
    assert(last_value(InputRole::Data, Some(before.data), first) == Some(before.data));
    assert(last_value(InputRole::FrameSync, before.frame, first) == Some(frame.sync.bit));
}

proof fn last_in_parts(role: InputRole, before: Option<Bit>, a: Seq<Event>, b: Seq<Event>)
    ensures
        last_value(role, before, a + b) == last_value(role, last_value(role, before, a), b),
    decreases b.len(),
{
    if b.len() == 0 {
        assert(a + b =~= a);
    } else {
        last_in_parts(role, before, a, b.drop_last());
        assert((a + b).drop_last() =~= a + b.drop_last());
    }
}

/// A frame in pulse mode is read as it was sent, once it has as many ticks as
/// its channels take: each channel gets exactly one sample, with the bits of its
/// ticks, and no error is reported. What comes before the next frame does not
/// matter.
pub proof fn frame_is_read(params: ParamsView, before: StateView, frame: Frame)
    requires
        params::limits_fault(params) is None,
        params.frame_mode == FrameSyncMode::Pulse,
        before.rows.len() == params.channels,
        !before.active,
        follows_on(params, before.frame, frame),
        ticks(params, before.clock, before.data, frame.body).len() >= frame_ticks(params),
    ensures
        ({
            let after = state::after_events(params, before, frame_events(frame));
            let read = ticks(params, before.clock, before.data, frame.body);
            &&& after.rows == Seq::new(
                params.channels as nat,
                |c: int|
                    before.rows[c].push(
                        sample_at(params, frame.sync.time, word_ticks(params, read, c as nat)),
                    ),
            )
            &&& after.errors == before.errors
            &&& !after.active
        }),
{
    let start = started(params, before, frame);
    let read = ticks(params, before.clock, before.data, frame.body);
    let needed = frame_ticks(params) as int;
    frame_by_ticks(params, before, frame);
    slots_are_read(params, start, read, params.channels as nat);
    ticks_in_parts(params, start, read.take(needed), read.skip(needed));
    assert(read.take(needed) + read.skip(needed) =~= read);
    ticks_pass(params, after_ticks(params, start, read.take(needed)), read.skip(needed));
    let after = state::after_events(params, before, frame_events(frame));
    assert(after.rows =~= Seq::new(
        params.channels as nat,
        |c: int|
            before.rows[c].push(
                sample_at(params, frame.sync.time, word_ticks(params, read, c as nat)),
            ),
    ));
}

/// The ticks that a slot takes in level mode.
pub open spec fn slot_ticks(params: ParamsView) -> nat {
    state::leading_cycles(params) + params.bits as nat
}

/// The sample of a slot in level mode.
pub open spec fn slot_sample(params: ParamsView, start: u64, read: Seq<Tick>) -> ItemView {
    sample_at(
        params,
        start,
        read.subrange(state::leading_cycles(params) as int, slot_ticks(params) as int),
    )
}

/// A slot in level mode is read as it was sent, once it has as many ticks as a
/// sample takes: the channel that the level selects gets exactly one sample, and
/// the other one none.
pub proof fn level_slot_is_read(params: ParamsView, before: StateView, slot: Frame)
    requires
        params::limits_fault(params) is None,
        params.frame_mode == FrameSyncMode::Level,
        before.rows.len() == params.channels,
        !before.active,
        follows_on(params, before.frame, slot),
        ticks(params, before.clock, before.data, slot.body).len() >= slot_ticks(params),
    ensures
        ({
            let channel = state::begins_slot(params, before.frame, slot.sync.bit).unwrap() as int;
            let after = state::after_events(params, before, frame_events(slot));
            let read = ticks(params, before.clock, before.data, slot.body);
            &&& after.rows == before.rows.update(
                channel,
                before.rows[channel].push(slot_sample(params, slot.sync.time, read)),
            )
            &&& after.errors == before.errors
            &&& !after.active
        }),
{
    let start = started(params, before, slot);
    let read = ticks(params, before.clock, before.data, slot.body);
    let lead = state::leading_cycles(params) as int;
    let needed = slot_ticks(params) as int;
    frame_by_ticks(params, before, slot);
    let word = read.subrange(lead, needed);
    ticks_are_skipped(params, start, read.take(lead));
    word_is_read(params, after_ticks(params, start, read.take(lead)), word);
    assert(read.take(lead) + word =~= read.take(needed));
    assert(read.take(needed) + read.skip(needed) =~= read);
    ticks_in_parts(params, start, read.take(lead), word);
    ticks_in_parts(params, start, read.take(needed), read.skip(needed));
    ticks_pass(params, after_ticks(params, start, read.take(needed)), read.skip(needed));
}

/// The events of a capture: what comes before the first frame, and the first
/// `n` frames.
pub open spec fn captured(lead: Seq<Event>, frames: Seq<Frame>, n: nat) -> Seq<Event>
    decreases n,
{
    if n == 0 {
        lead
    } else {
        captured(lead, frames, (n - 1) as nat) + frame_events(frames[n - 1])
    }
}

/// The value of the frame sync before a frame of a capture.
pub open spec fn sync_before(lead: Seq<Event>, frames: Seq<Frame>, k: nat) -> Option<Bit> {
    last_value(InputRole::FrameSync, None, captured(lead, frames, k))
}

/// The ticks of a frame of a capture.
pub open spec fn ticks_of(
    params: ParamsView,
    lead: Seq<Event>,
    frames: Seq<Frame>,
    k: nat,
) -> Seq<Tick> {
    let before = captured(lead, frames, k);
    ticks(
        params,
        last_value(InputRole::BitClk, None, before),
        data_after(Bit::Zero, before),
        frames[k as int].body,
    )
}

/// Whether a capture is a series of frames (pulse mode) or slots (level mode)
/// with at least `needed` ticks each. Before the first one nothing begins.
pub open spec fn is_series(
    params: ParamsView,
    lead: Seq<Event>,
    frames: Seq<Frame>,
    needed: nat,
) -> bool {
    &&& quiet(params, None, lead)
    &&& forall|k: int|
        0 <= k < frames.len() ==> follows_on(
            params,
            sync_before(lead, frames, k as nat),
            #[trigger] frames[k],
        ) && ticks_of(params, lead, frames, k as nat).len() >= needed
}

/// What has been decoded of the first `n` frames, and how the inputs stand.
spec fn read_upto(
    params: ParamsView,
    after: StateView,
    lead: Seq<Event>,
    frames: Seq<Frame>,
    n: nat,
) -> bool {
    let events = captured(lead, frames, n);
    &&& after.clock == last_value(InputRole::BitClk, None, events)
    &&& after.frame == last_value(InputRole::FrameSync, None, events)
    &&& after.data == data_after(Bit::Zero, events)
    &&& !after.active
    &&& after.errors.len() == 0
    &&& after.rows.len() == params.channels
}

proof fn lead_is_passed(params: ParamsView, lead: Seq<Event>, frames: Seq<Frame>)
    requires
        quiet(params, None, lead),
    ensures
        ({
            let after = state::after_events(params, state::initial(params), lead);
            &&& read_upto(params, after, lead, frames, 0)
            &&& after.rows == state::initial(params).rows
        }),
{
    let start = state::initial(params);
    only_ticks_matter(params, start, lead);
    ticks_pass(params, start, ticks(params, start.clock, start.data, lead));
}

proof fn inputs_go_on(
    params: ParamsView,
    before: StateView,
    lead: Seq<Event>,
    frames: Seq<Frame>,
    n: nat,
)
    requires
        0 < n <= frames.len(),
        before == state::after_events(
            params,
            state::initial(params),
            captured(lead, frames, (n - 1) as nat),
        ),
        read_upto(params, before, lead, frames, (n - 1) as nat),
        follows_on(params, before.frame, frames[n - 1]),
    ensures
        ({
            let after = state::after_events(
                params,
                state::initial(params),
                captured(lead, frames, n),
            );
            let events = captured(lead, frames, n);
            &&& after == state::after_events(params, before, frame_events(frames[n - 1]))
            &&& after.clock == last_value(InputRole::BitClk, None, events)
            &&& after.frame == last_value(InputRole::FrameSync, None, events)
            &&& after.data == data_after(Bit::Zero, events)
        }),
{
    let done = captured(lead, frames, (n - 1) as nat);
    let more = frame_events(frames[n - 1]);
    laws::events_in_parts(params, state::initial(params), done, more);
    frame_by_ticks(params, before, frames[n - 1]);
    data_is_known(Bit::Zero, done);
    last_in_parts(InputRole::BitClk, None, done, more);
    last_in_parts(InputRole::FrameSync, None, done, more);
    last_in_parts(InputRole::Data, Some(Bit::Zero), done, more);
}

/// The samples of a channel in a capture in pulse mode: one for each frame.
pub open spec fn channel_samples(
    params: ParamsView,
    lead: Seq<Event>,
    frames: Seq<Frame>,
    n: nat,
    channel: nat,
) -> Seq<ItemView> {
    Seq::new(
        n,
        |k: int|
            sample_at(
                params,
                frames[k].sync.time,
                word_ticks(params, ticks_of(params, lead, frames, k as nat), channel),
            ),
    )
}

proof fn samples_go_on(
    params: ParamsView,
    lead: Seq<Event>,
    frames: Seq<Frame>,
    n: nat,
    channel: nat,
)
    ensures
        channel_samples(params, lead, frames, n + 1, channel) == channel_samples(
            params,
            lead,
            frames,
            n,
            channel,
        ).push(
            sample_at(
                params,
                frames[n as int].sync.time,
                word_ticks(params, ticks_of(params, lead, frames, n), channel),
            ),
        ),
{
}

proof fn frames_are_read(params: ParamsView, lead: Seq<Event>, frames: Seq<Frame>, n: nat)
    requires
        params::limits_fault(params) is None,
        params.frame_mode == FrameSyncMode::Pulse,
        is_series(params, lead, frames, frame_ticks(params)),
        n <= frames.len(),
    ensures
        ({
            let after = state::after_events(
                params,
                state::initial(params),
                captured(lead, frames, n),
            );
            &&& read_upto(params, after, lead, frames, n)
            &&& forall|c: int|
                0 <= c < params.channels ==> #[trigger] after.rows[c] == channel_samples(
                    params,
                    lead,
                    frames,
                    n,
                    c as nat,
                )
        }),
    decreases n,
{
    if n == 0 {
        lead_is_passed(params, lead, frames);
        assert forall|c: int| 0 <= c < params.channels implies #[trigger] state::initial(
            params,
        ).rows[c] == channel_samples(params, lead, frames, 0, c as nat) by {
            assert(channel_samples(params, lead, frames, 0, c as nat) =~= Seq::<ItemView>::empty());
        }
    } else {
        let m = (n - 1) as nat;
        frames_are_read(params, lead, frames, m);
        let before = state::after_events(params, state::initial(params), captured(lead, frames, m));
        let frame = frames[m as int];
        assert(follows_on(params, sync_before(lead, frames, m), frame));
        inputs_go_on(params, before, lead, frames, n);
        frame_is_read(params, before, frame);
        let after = state::after_events(params, before, frame_events(frame));
        assert forall|c: int| 0 <= c < params.channels implies #[trigger] after.rows[c]
            == channel_samples(params, lead, frames, n, c as nat) by {
            assert(before.rows[c] == channel_samples(params, lead, frames, m, c as nat));
            samples_go_on(params, lead, frames, m, c as nat);
        }
    }
}

/// The rows of a capture without errors.
pub open spec fn sound_rows(
    params: ParamsView,
    samples: spec_fn(int) -> Seq<ItemView>,
) -> Seq<RowView> {
    let channels = Seq::new(
        params.channels as nat,
        |c: int|
            RowView {
                name: "ch"@ + text::decimal(c as nat),
                numeric_range: state::sample_range(params),
                items: samples(c),
            },
    );
    if params.show_errors {
        channels.push(
            RowView {
                name: "errors"@,
                numeric_range: state::sample_range(params),
                items: Seq::empty(),
            },
        )
    } else {
        channels
    }
}

/// Whether what was captured of the inputs is a series of frames or slots.
pub open spec fn shows_series(
    params: ParamsView,
    inputs: Seq<SignalView>,
    lead: Seq<Event>,
    frames: Seq<Frame>,
    needed: nat,
) -> bool {
    &&& params::limits_fault(params) is None
    &&& clocked_serial::inputs_fault(params, inputs) is None
    &&& clocked_serial::events_from(
        clocked_serial::changes_of(params, inputs),
        clocked_serial::at_start(),
    ) == captured(lead, frames, frames.len())
    &&& is_series(params, lead, frames, needed)
}

/// A capture in pulse mode whose frames fit is decoded without an error: every
/// channel has one sample for each frame, in the order of the frames, with the
/// bits that the data line had at the ticks of its slot.
pub proof fn capture_is_decoded(
    params: ParamsView,
    inputs: Seq<SignalView>,
    lead: Seq<Event>,
    frames: Seq<Frame>,
)
    requires
        params.frame_mode == FrameSyncMode::Pulse,
        shows_series(params, inputs, lead, frames, frame_ticks(params)),
    ensures
        clocked_serial::decoded_rows(params, inputs) == Ok::<Seq<RowView>, ErrorView>(
            sound_rows(
                params,
                |c: int| channel_samples(params, lead, frames, frames.len(), c as nat),
            ),
        ),
{
    frames_are_read(params, lead, frames, frames.len());
    let after = state::after_events(
        params,
        state::initial(params),
        captured(lead, frames, frames.len()),
    );
    let samples = |c: int| channel_samples(params, lead, frames, frames.len(), c as nat);
    assert(after.errors =~= Seq::<ItemView>::empty());
    assert(state::rows_of(params, after) =~= sound_rows(params, samples));
}

/// The samples of a channel in a capture in level mode: one for each slot that
/// the frame sync selects the channel for.
pub open spec fn selected_samples(
    params: ParamsView,
    lead: Seq<Event>,
    slots: Seq<Frame>,
    n: nat,
    channel: nat,
) -> Seq<ItemView>
    decreases n,
{
    if n == 0 {
        Seq::empty()
    } else {
        let m = (n - 1) as nat;
        let slot = slots[m as int];
        let rest = selected_samples(params, lead, slots, m, channel);
        if state::begins_slot(params, sync_before(lead, slots, m), slot.sync.bit) == Some(channel) {
            rest.push(
                slot_sample(params, slot.sync.time, ticks_of(params, lead, slots, m)),
            )
        } else {
            rest
        }
    }
}

proof fn level_slots_are_read(params: ParamsView, lead: Seq<Event>, slots: Seq<Frame>, n: nat)
    requires
        params::limits_fault(params) is None,
        params.frame_mode == FrameSyncMode::Level,
        is_series(params, lead, slots, slot_ticks(params)),
        n <= slots.len(),
    ensures
        ({
            let after = state::after_events(
                params,
                state::initial(params),
                captured(lead, slots, n),
            );
            &&& read_upto(params, after, lead, slots, n)
            &&& forall|c: int|
                0 <= c < params.channels ==> #[trigger] after.rows[c] == selected_samples(
                    params,
                    lead,
                    slots,
                    n,
                    c as nat,
                )
        }),
    decreases n,
{
    if n == 0 {
        lead_is_passed(params, lead, slots);
        assert forall|c: int| 0 <= c < params.channels implies #[trigger] state::initial(
            params,
        ).rows[c] == selected_samples(params, lead, slots, 0, c as nat) by {}
    } else {
        let m = (n - 1) as nat;
        level_slots_are_read(params, lead, slots, m);
        let before = state::after_events(params, state::initial(params), captured(lead, slots, m));
        let slot = slots[m as int];
        assert(follows_on(params, sync_before(lead, slots, m), slot));
        inputs_go_on(params, before, lead, slots, n);
        level_slot_is_read(params, before, slot);
        let after = state::after_events(params, before, frame_events(slot));
        assert forall|c: int| 0 <= c < params.channels implies #[trigger] after.rows[c]
            == selected_samples(params, lead, slots, n, c as nat) by {
            assert(before.rows[c] == selected_samples(params, lead, slots, m, c as nat));
        }
    }
}

/// A capture in level mode whose slots fit is decoded without an error: every
/// channel has one sample for each of its slots, in their order, with the bits
/// that the data line had at the ticks of the slot.
pub proof fn level_capture_is_decoded(
    params: ParamsView,
    inputs: Seq<SignalView>,
    lead: Seq<Event>,
    slots: Seq<Frame>,
)
    requires
        params.frame_mode == FrameSyncMode::Level,
        shows_series(params, inputs, lead, slots, slot_ticks(params)),
    ensures
        clocked_serial::decoded_rows(params, inputs) == Ok::<Seq<RowView>, ErrorView>(
            sound_rows(
                params,
                |c: int| selected_samples(params, lead, slots, slots.len(), c as nat),
            ),
        ),
{
    level_slots_are_read(params, lead, slots, slots.len());
    let after = state::after_events(
        params,
        state::initial(params),
        captured(lead, slots, slots.len()),
    );
    let samples = |c: int| selected_samples(params, lead, slots, slots.len(), c as nat);
    assert(after.errors =~= Seq::<ItemView>::empty());
    assert(state::rows_of(params, after) =~= sound_rows(params, samples));
}

} // verus!
