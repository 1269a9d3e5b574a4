//! The state of the clocked serial engine while it reads its inputs.
use vstd::prelude::*;
#[allow(unused_imports)]
use vstd::arithmetic::power2;
use crate::bits;
use crate::decoders::engines::clocked_serial::params;
use crate::decoders::engines::clocked_serial::params::{
    ClockedSerialParams, FrameSyncMode, Justification, ParamsView,
};
use crate::decoders::error::ErrorView;
use crate::decoders::input::Bit;
use crate::decoders::value;
use crate::decoders::value::{
    BitOrder, DecodedData, DecodedItem, DecodedRow, DecodedValue, Edge, ItemView, NumericRange,
    RowView, ValueView,
};
use crate::text;

verus! {

/// Upper bound on incomplete-frame errors reported per decode, so a
/// misconfigured bus cannot flood the error row.
pub const MAX_FRAME_ERRORS: usize = 100;

/// The level that an edge leads to.
pub open spec fn edge_level(edge: Edge) -> Bit {
    match edge {
        Edge::Rising => Bit::One,
        Edge::Falling => Bit::Zero,
    }
}

/// Whether a change is the edge: it arrives at the edge's level from any other
/// value.
pub open spec fn is_edge(previous: Bit, current: Bit, edge: Edge) -> bool {
    current == edge_level(edge) && previous != current
}

/// What has been read so far.
#[verifier::ext_equal]
pub struct StateView {
    /// The last values of the bit clock and the frame sync.
    pub clock: Option<Bit>,
    pub frame: Option<Bit>,
    /// The current value of the data line.
    pub data: Bit,
    /// Whether a frame (pulse mode) or slot (level mode) is being read.
    pub active: bool,
    /// The channel that is read.
    pub slot: nat,
    /// Clock cycles to let pass before the next bit.
    pub padding: nat,
    /// The bits of the sample read so far.
    pub read: Seq<Bit>,
    /// When the current frame (pulse mode) or slot (level mode) began.
    pub frame_start: u64,
    /// The number of samples read in the current frame.
    pub samples: nat,
    /// The samples of each channel.
    pub rows: Seq<Seq<ItemView>>,
    /// The frames that ended too early.
    pub errors: Seq<ItemView>,
}

/// The state before the first event.
pub open spec fn initial(params: ParamsView) -> StateView {
    StateView {
        clock: None,
        frame: None,
        data: Bit::Zero,
        active: false,
        slot: 0,
        padding: 0,
        read: Seq::empty(),
        frame_start: 0,
        samples: 0,
        rows: Seq::new(params.channels as nat, |i: int| Seq::<ItemView>::empty()),
        errors: Seq::empty(),
    }
}

/// The number of a bit.
pub open spec fn digit(bit: Bit) -> nat {
    if bit == Bit::One {
        1
    } else {
        0
    }
}

/// The number that bits stand for, the most significant one first.
pub open spec fn msb_value(read: Seq<Bit>) -> nat
    decreases read.len(),
{
    if read.len() == 0 {
        0
    } else {
        2 * msb_value(read.drop_last()) + digit(read.last())
    }
}

/// The number that bits stand for, the least significant one first.
pub open spec fn lsb_value(read: Seq<Bit>) -> nat
    decreases read.len(),
{
    if read.len() == 0 {
        0
    } else {
        lsb_value(read.drop_last()) + digit(read.last()) * power2::pow2((read.len() - 1) as nat)
    }
}

/// The number that the bits of a sample stand for.
pub open spec fn raw_value(params: ParamsView, read: Seq<Bit>) -> nat {
    match params.bit_order {
        BitOrder::MsbFirst => msb_value(read),
        BitOrder::LsbFirst => lsb_value(read),
    }
}

/// The value of a sample. A bit that is no level makes the whole sample
/// unknown: high impedance before undefined, and that before "don't care".
pub open spec fn sample_value(params: ParamsView, read: Seq<Bit>) -> ValueView {
    if read.contains(Bit::HighImp) {
        ValueView::HighImp
    } else if read.contains(Bit::Undef) || read.contains(Bit::Weak) {
        ValueView::Undef
    } else if read.contains(Bit::DontCare) {
        ValueView::DontCare
    } else {
        let raw = raw_value(params, read) as int;
        ValueView::Integer {
            value: if params.signed || params.bits == 64 {
                bits::two_complement(raw, params.bits as nat)
            } else {
                raw
            },
            bits: params.bits as nat,
        }
    }
}

/// The channel whose slot a change of the frame sync begins, if any.
///
/// In pulse mode the frame begins at the configured edge, and a first value at
/// the edge's level counts as one. In level mode each change to a level begins
/// the slot of the channel that the level selects.
pub open spec fn begins_slot(params: ParamsView, previous: Option<Bit>, bit: Bit) -> Option<nat> {
    match params.frame_mode {
        FrameSyncMode::Pulse => {
            let begins = match previous {
                Some(previous) => is_edge(previous, bit, params.frame_edge),
                None => bit == edge_level(params.frame_edge),
            };
            if begins {
                Some(0)
            } else {
                None
            }
        },
        FrameSyncMode::Level => if previous == Some(bit) || !(bit == Bit::One || bit
            == Bit::Zero) {
            None
        } else if (bit == Bit::One) == params.frame_active_high {
            Some(0)
        } else {
            Some(1)
        },
    }
}

/// What is said of a frame that ended before all of its data was read.
pub open spec fn incomplete_text(params: ParamsView, samples: nat) -> Seq<char> {
    match params.frame_mode {
        FrameSyncMode::Pulse => "incomplete frame: "@ + text::decimal(samples) + " of "@
            + text::decimal(params.channels as nat) + " channels"@,
        FrameSyncMode::Level => "incomplete sample"@,
    }
}

/// The errors, with the one for a frame that ended too early at `time`. Beyond
/// a bound they are no longer listed.
pub open spec fn with_incomplete(params: ParamsView, state: StateView, time: u64) -> Seq<ItemView> {
    if !params.show_errors || state.errors.len() > MAX_FRAME_ERRORS {
        state.errors
    } else {
        let words = if state.errors.len() == MAX_FRAME_ERRORS {
            "further frame errors suppressed"@
        } else {
            incomplete_text(params, state.samples)
        };
        state.errors.push(
            ItemView { start: state.frame_start, end: time, value: ValueView::Text(words) },
        )
    }
}

/// Clock cycles of a slot that are not used for the sample.
pub open spec fn unused_cycles(params: ParamsView) -> nat {
    let width = params::slot_cycles(params);
    if width > params.bits {
        (width - params.bits) as nat
    } else {
        0
    }
}

/// Clock cycles before the first bit of a frame's first sample.
pub open spec fn leading_cycles(params: ParamsView) -> nat {
    let cycles = params.offset as nat + match params.justification {
        Justification::Left => 0,
        Justification::Right => unused_cycles(params),
    };
    if cycles > u32::MAX {
        u32::MAX as nat
    } else {
        cycles
    }
}

/// The state after a change of the frame sync.
pub open spec fn after_frame_sync(
    params: ParamsView,
    state: StateView,
    time: u64,
    bit: Bit,
) -> StateView {
    match begins_slot(params, state.frame, bit) {
        Some(channel) => StateView {
            frame: Some(bit),
            active: true,
            slot: channel,
            padding: leading_cycles(params),
            read: Seq::empty(),
            frame_start: time,
            samples: 0,
            errors: if state.active {
                with_incomplete(params, state, time)
            } else {
                state.errors
            },
            ..state
        },
        None => StateView { frame: Some(bit), ..state },
    }
}

/// The state after a bit has been read.
///
/// Every sample in a frame is displayed from the frame-sync edge, so values
/// change together on the frame boundary. A sample ends where its last bit was
/// read.
pub open spec fn after_bit(params: ParamsView, state: StateView, time: u64) -> StateView {
    let read = state.read.push(state.data);
    if read.len() < params.bits {
        StateView { read, ..state }
    } else {
        let sample = ItemView {
            start: state.frame_start,
            end: time,
            value: sample_value(params, read),
        };
        let more = params.frame_mode == FrameSyncMode::Pulse && state.slot + 1 < params.channels;
        StateView {
            active: more,
            slot: if more {
                state.slot + 1
            } else {
                state.slot
            },
            padding: if more {
                unused_cycles(params)
            } else {
                state.padding
            },
            read: Seq::empty(),
            samples: state.samples + 1,
            rows: state.rows.update(state.slot as int, state.rows[state.slot as int].push(sample)),
            ..state
        }
    }
}

/// The state after a change of the bit clock.
pub open spec fn after_bitclk(
    params: ParamsView,
    state: StateView,
    time: u64,
    bit: Bit,
) -> StateView {
    let ticked = StateView { clock: Some(bit), ..state };
    match state.clock {
        Some(previous) => if !is_edge(previous, bit, params.clock_edge) || !state.active {
            ticked
        } else if state.padding > 0 {
            StateView { padding: (state.padding - 1) as nat, ..ticked }
        } else {
            after_bit(params, ticked, time)
        },
        None => ticked,
    }
}

/// The input that an event comes from.
#[derive(Debug, Clone, Copy, PartialEq, Eq, Structural)]
pub enum InputRole {
    FrameSync,
    Data,
    BitClk,
}

/// A change of one input.
#[derive(Debug, Clone, Copy, PartialEq, Eq, Structural)]
pub struct Event {
    pub role: InputRole,
    pub time: u64,
    pub bit: Bit,
}

/// The state after an event.
pub open spec fn after_event(params: ParamsView, state: StateView, event: Event) -> StateView {
    match event.role {
        InputRole::FrameSync => after_frame_sync(params, state, event.time, event.bit),
        InputRole::Data => StateView { data: event.bit, ..state },
        InputRole::BitClk => after_bitclk(params, state, event.time, event.bit),
    }
}

/// The state after events.
pub open spec fn after_events(params: ParamsView, state: StateView, events: Seq<Event>) -> StateView
    decreases events.len(),
{
    if events.len() == 0 {
        state
    } else {
        after_event(params, after_events(params, state, events.drop_last()), events.last())
    }
}

/// The range of the samples, where it is shown.
pub open spec fn sample_range(params: ParamsView) -> Option<NumericRange> {
    if params.bits <= 63 {
        Some(NumericRange { bits: params.bits, signed: params.signed })
    } else {
        None
    }
}

/// The row of a channel.
pub open spec fn channel_row(params: ParamsView, state: StateView, channel: int) -> RowView {
    RowView {
        name: "ch"@ + text::decimal(channel as nat),
        numeric_range: sample_range(params),
        items: state.rows[channel],
    }
}

/// The rows that a state shows.
pub open spec fn rows_of(params: ParamsView, state: StateView) -> Seq<RowView> {
    let channels = Seq::new(
        state.rows.len(),
        |channel: int| channel_row(params, state, channel),
    );
    if params.show_errors {
        channels.push(
            RowView {
                name: "errors"@,
                numeric_range: sample_range(params),
                items: state.errors,
            },
        )
    } else {
        channels
    }
}

/// The views of the rows of all channels.
pub open spec fn channel_views(rows: Seq<Vec<DecodedItem>>) -> Seq<Seq<ItemView>> {
    Seq::new(rows.len(), |i: int| value::item_views(rows[i]@))
}

/// The state of the engine while it reads its inputs.
pub struct DecoderState<'a> {
    params: &'a ClockedSerialParams,
    clock: Option<Bit>,
    frame: Option<Bit>,
    data: Bit,
    active: bool,
    slot: usize,
    padding: u32,
    read: Vec<Bit>,
    frame_start: u64,
    samples: u32,
    rows: Vec<Vec<DecodedItem>>,
    errors: Vec<DecodedItem>,
}

impl<'a> View for DecoderState<'a> {
    type V = StateView;

    closed spec fn view(&self) -> StateView {
        StateView {
            clock: self.clock,
            frame: self.frame,
            data: self.data,
            active: self.active,
            slot: self.slot as nat,
            padding: self.padding as nat,
            read: self.read@,
            frame_start: self.frame_start,
            samples: self.samples as nat,
            rows: channel_views(self.rows@),
            errors: value::item_views(self.errors@),
        }
    }
}

/// Compute the value of a sample from its bits.
pub fn value_of_bits(params: &ClockedSerialParams, read: &Vec<Bit>) -> (result: DecodedValue)
    requires
        read.len() == params.bits,
        0 < params.bits <= 64,
    ensures
        result@ == sample_value(params@, read@),
{
    let mut high = false;
    let mut undef = false;
    let mut dont_care = false;
    let mut raw: u64 = 0;
    let mut i: usize = 0;
    while i < read.len()
        invariant
            read.len() == params.bits,
            0 < params.bits <= 64,
            i <= read.len(),
            high == read@.take(i as int).contains(Bit::HighImp),
            undef == (read@.take(i as int).contains(Bit::Undef) || read@.take(i as int).contains(
                Bit::Weak,
            )),
            dont_care == read@.take(i as int).contains(Bit::DontCare),
            raw == raw_value(params@, read@.take(i as int)),
        decreases read.len() - i,
    {
        let bit = read[i];
        proof {
            let before = read@.take(i as int);
            let after = read@.take(i + 1);
            assert(after =~= before.push(bit));
            assert(after.drop_last() =~= before);
            push_contains(before, bit, Bit::HighImp);
            push_contains(before, bit, Bit::Undef);
            push_contains(before, bit, Bit::Weak);
            push_contains(before, bit, Bit::DontCare);
            raw_value_range(params@, before);
            bits::pow2_monotone(i as nat, 63);
            bits::pow2_64();
        }
        let one: u64 = if bit == Bit::One {
            1
        } else {
            0
        };
        match params.bit_order {
            BitOrder::MsbFirst => {
                raw = 2 * raw + one;
            },
            BitOrder::LsbFirst => {
                proof {
                    vstd::arithmetic::mul::lemma_mul_basics(power2::pow2(i as nat) as int);
                }
                if one == 1 {
                    raw = raw + bits::power_of_two(i as u32);
                }
            },
        }
        match bit {
            Bit::HighImp => {
                high = true;
            },
            Bit::Undef => {
                undef = true;
            },
            Bit::Weak => {
                undef = true;
            },
            Bit::DontCare => {
                dont_care = true;
            },
            Bit::Zero => {},
            Bit::One => {},
        }
        i += 1;
    }
    assert(read@.take(i as int) =~= read@);
    if high {
        DecodedValue::HighImp
    } else if undef {
        DecodedValue::Undef
    } else if dont_care {
        DecodedValue::DontCare
    } else {
        DecodedValue::integer(signed_reading(params, raw, Ghost(read@)), params.bits)
    }
}

fn signed_reading(params: &ClockedSerialParams, raw: u64, Ghost(read): Ghost<Seq<Bit>>) -> (value:
    i64)
    requires
        0 < params.bits <= 64,
        read.len() == params.bits,
        raw == raw_value(params@, read),
    ensures
        value == (if params.signed || params.bits == 64 {
            bits::two_complement(raw as int, params.bits as nat)
        } else {
            raw as int
        }),
{
    proof {
        raw_value_range(params@, read);
        bits::pow2_next((params.bits - 1) as nat);
        bits::pow2_monotone(params.bits as nat, 64);
        bits::pow2_64();
        if params.bits < 64 {
            bits::pow2_monotone(params.bits as nat, 63);
        }
    }
    if params.signed || params.bits == 64 {
        let half = bits::power_of_two(params.bits - 1);
        if raw >= half {
            (raw as i128 - 2 * (half as i128)) as i64
        } else {
            raw as i64
        }
    } else {
        raw as i64
    }
}

proof fn push_contains(before: Seq<Bit>, bit: Bit, wanted: Bit)
    ensures
        before.push(bit).contains(wanted) == (before.contains(wanted) || bit == wanted),
{
    let after = before.push(bit);
    assert(after[before.len() as int] == bit);
    if before.contains(wanted) {
        let k = choose|k: int| 0 <= k < before.len() && before[k] == wanted;
        assert(after[k] == wanted);
    }
}

/// The number that bits stand for fits in as many bits.
pub proof fn raw_value_range(params: ParamsView, read: Seq<Bit>)
    ensures
        raw_value(params, read) < power2::pow2(read.len()),
    decreases read.len(),
{
    if read.len() == 0 {
        power2::lemma2_to64();
    } else {
        raw_value_range(params, read.drop_last());
        bits::pow2_next((read.len() - 1) as nat);
        vstd::arithmetic::mul::lemma_mul_basics(power2::pow2((read.len() - 1) as nat) as int);
    }
}

fn sees_edge(previous: Bit, current: Bit, edge: Edge) -> (seen: bool)
    ensures
        seen == is_edge(previous, current, edge),
{
    match edge {
        Edge::Rising => current == Bit::One && previous != Bit::One,
        Edge::Falling => current == Bit::Zero && previous != Bit::Zero,
    }
}

impl<'a> DecoderState<'a> {
    /// Whether the state fits the parameters.
    pub closed spec fn well_formed(&self) -> bool {
        &&& params::limits_fault(self.params@) is None
        &&& self.rows.len() == self.params.channels
        &&& self.slot < self.params.channels
        &&& self.read.len() < self.params.bits
        &&& self.samples <= self.slot + 1
        &&& self.active ==> self.samples <= self.slot
        &&& self.errors.len() <= MAX_FRAME_ERRORS + 1
    }

    /// The parameters that the state decodes with.
    pub closed spec fn parameters(&self) -> ParamsView {
        self.params@
    }

    /// The state before the first event.
    pub fn new(params: &'a ClockedSerialParams) -> (state: Self)
        requires
            params::limits_fault(params@) is None,
        ensures
            state.well_formed(),
            state.parameters() == params@,
            state@ == initial(params@),
    {
        let mut rows: Vec<Vec<DecodedItem>> = Vec::new();
        let mut i: u32 = 0;
        while i < params.channels
            invariant
                i <= params.channels,
                rows.len() == i,
                forall|k: int| 0 <= k < i ==> (#[trigger] rows@[k])@.len() == 0,
            decreases params.channels - i,
        {
            rows.push(Vec::new());
            i += 1;
        }
        let state = DecoderState {
            params,
            clock: None,
            frame: None,
            data: Bit::Zero,
            active: false,
            slot: 0,
            padding: 0,
            read: Vec::new(),
            frame_start: 0,
            samples: 0,
            rows,
            errors: Vec::new(),
        };
        proof {
            assert forall|k: int| 0 <= k < params.channels implies state@.rows[k] == initial(
                params@,
            ).rows[k] by {
                assert(value::item_views(rows@[k]@) =~= Seq::<ItemView>::empty());
            }
            assert(state@.rows =~= initial(params@).rows);
            assert(state@.errors =~= Seq::<ItemView>::empty());
            assert(state@ =~= initial(params@));
        }
        state
    }

    fn channel_of(&self, previous: Option<Bit>, bit: Bit) -> (channel: Option<usize>)
        requires
            self.well_formed(),
        ensures
            match (channel, begins_slot(self.parameters(), previous, bit)) {
                (Some(a), Some(b)) => a == b && a < self.params.channels,
                (None, None) => true,
                _ => false,
            },
    {
        match self.params.frame_mode {
            FrameSyncMode::Pulse => {
                let begins = match previous {
                    Some(previous) => sees_edge(previous, bit, self.params.frame_edge),
                    None => match self.params.frame_edge {
                        Edge::Rising => bit == Bit::One,
                        Edge::Falling => bit == Bit::Zero,
                    },
                };
                if begins {
                    Some(0)
                } else {
                    None
                }
            },
            FrameSyncMode::Level => {
                if previous == Some(bit) {
                    return None;
                }
                match (bit, self.params.frame_active_high) {
                    (Bit::One, true) => Some(0),
                    (Bit::Zero, false) => Some(0),
                    (Bit::One, false) => Some(1),
                    (Bit::Zero, true) => Some(1),
                    _ => None,
                }
            },
        }
    }

    /// Read a change of the frame sync.
    pub fn on_frame_sync(&mut self, time: u64, bit: Bit)
        requires
            old(self).well_formed(),
        ensures
            final(self).well_formed(),
            final(self).parameters() == old(self).parameters(),
            final(self)@ == after_frame_sync(old(self).parameters(), old(self)@, time, bit),
    {
        let previous = self.frame;
        let channel = self.channel_of(previous, bit);
        self.frame = Some(bit);
        if let Some(channel) = channel {
            if self.active {
                self.note_incomplete_frame(time);
            }
            self.start_slot(time, channel);
        }
        assert(self@ =~= after_frame_sync(old(self).parameters(), old(self)@, time, bit));
    }

    /// Record a frame (pulse mode) or sample (level mode) that ended before
    /// all of its data was read, e.g. because the frame sync period is too
    /// short for the configured channels, bits and slot width.
    fn note_incomplete_frame(&mut self, time: u64)
        requires
            old(self).well_formed(),
        ensures
            final(self).well_formed(),
            final(self).parameters() == old(self).parameters(),
            final(self)@ == (StateView {
                errors: with_incomplete(old(self).parameters(), old(self)@, time),
                ..old(self)@
            }),
    {
        if !self.params.show_errors || self.errors.len() > MAX_FRAME_ERRORS {
            return;
        }
        let words = if self.errors.len() == MAX_FRAME_ERRORS {
            "further frame errors suppressed".to_owned()
        } else {
            match self.params.frame_mode {
                FrameSyncMode::Pulse => {
                    let mut words = "incomplete frame: ".to_owned();
                    text::push_decimal(&mut words, self.samples as u64);
                    words.append(" of ");
                    text::push_decimal(&mut words, self.params.channels as u64);
                    words.append(" channels");
                    words
                },
                FrameSyncMode::Level => "incomplete sample".to_owned(),
            }
        };
        self.errors.push(
            DecodedItem { start: self.frame_start, end: time, value: DecodedValue::Text(words) },
        );
        assert(self@.errors =~= with_incomplete(old(self).parameters(), old(self)@, time));
    }

    fn start_slot(&mut self, time: u64, channel: usize)
        requires
            old(self).well_formed(),
            channel < old(self).params.channels,
        ensures
            final(self).well_formed(),
            final(self).parameters() == old(self).parameters(),
            final(self)@ == (StateView {
                active: true,
                slot: channel as nat,
                padding: leading_cycles(old(self).parameters()),
                read: Seq::empty(),
                frame_start: time,
                samples: 0,
                ..old(self)@
            }),
    {
        self.active = true;
        self.slot = channel;
        self.read = Vec::new();
        self.padding = self.params.offset.saturating_add(
            match self.params.justification {
                Justification::Left => 0,
                Justification::Right => self.params.slot_width().saturating_sub(self.params.bits),
            },
        );
        self.frame_start = time;
        self.samples = 0;
    }

    /// Read a change of the data line.
    pub fn on_data(&mut self, bit: Bit)
        requires
            old(self).well_formed(),
        ensures
            final(self).well_formed(),
            final(self).parameters() == old(self).parameters(),
            final(self)@ == (StateView { data: bit, ..old(self)@ }),
    {
        self.data = bit;
    }

    /// Read a change of the bit clock.
    pub fn on_bitclk(&mut self, time: u64, bit: Bit)
        requires
            old(self).well_formed(),
        ensures
            final(self).well_formed(),
            final(self).parameters() == old(self).parameters(),
            final(self)@ == after_bitclk(old(self).parameters(), old(self)@, time, bit),
    {
        let previous = self.clock;
        self.clock = Some(bit);
        if let Some(previous) = previous {
            if sees_edge(previous, bit, self.params.clock_edge) && self.active {
                if self.padding > 0 {
                    self.padding = self.padding - 1;
                } else {
                    self.read_bit(time);
                }
            }
        }
        assert(self@ =~= after_bitclk(old(self).parameters(), old(self)@, time, bit));
    }

    fn read_bit(&mut self, time: u64)
        requires
            old(self).well_formed(),
            old(self)@.active,
        ensures
            final(self).well_formed(),
            final(self).parameters() == old(self).parameters(),
            final(self)@ == after_bit(old(self).parameters(), old(self)@, time),
    {
        let bit = self.data;
        self.read.push(bit);
        if self.read.len() == self.params.bits as usize {
            self.emit_sample(time);
        }
        assert(self@ =~= after_bit(old(self).parameters(), old(self)@, time));
    }

    fn emit_sample(&mut self, time: u64)
        requires
            params::limits_fault(old(self).params@) is None,
            old(self).rows.len() == old(self).params.channels,
            old(self).slot < old(self).params.channels,
            old(self).read.len() == old(self).params.bits,
            old(self).samples <= old(self).slot,
            old(self).errors.len() <= MAX_FRAME_ERRORS + 1,
        ensures
            final(self).well_formed(),
            final(self).parameters() == old(self).parameters(),
            final(self)@.clock == old(self)@.clock,
            final(self)@.frame == old(self)@.frame,
            final(self)@.data == old(self)@.data,
            final(self)@.frame_start == old(self)@.frame_start,
            final(self)@.errors == old(self)@.errors,
            final(self)@.samples == old(self)@.samples + 1,
            final(self)@.read == Seq::<Bit>::empty(),
            final(self)@.active == (old(self).params.frame_mode == FrameSyncMode::Pulse
                && old(self)@.slot + 1 < old(self).params.channels),
            final(self)@.slot == (if final(self)@.active {
                old(self)@.slot + 1
            } else {
                old(self)@.slot
            }),
            final(self)@.padding == (if final(self)@.active {
                unused_cycles(old(self).parameters())
            } else {
                old(self)@.padding
            }),
            final(self)@.rows == old(self)@.rows.update(
                old(self)@.slot as int,
                old(self)@.rows[old(self)@.slot as int].push(
                    ItemView {
                        start: old(self)@.frame_start,
                        end: time,
                        value: sample_value(old(self).parameters(), old(self)@.read),
                    },
                ),
            ),
    {
        let sample = value_of_bits(self.params, &self.read);
        let item = DecodedItem { start: self.frame_start, end: time, value: sample };
        let ghost view = item@;
        let ghost before = self.rows@;
        self.rows[self.slot].push(item);
        proof {
            let slot = self.slot as int;
            assert(value::item_views(self.rows@[slot]@) =~= value::item_views(
                before[slot]@,
            ).push(view));
            assert(channel_views(self.rows@) =~= channel_views(before).update(
                slot,
                channel_views(before)[slot].push(view),
            ));
        }
        self.samples = self.samples + 1;
        self.read = Vec::new();
        if self.params.frame_mode == FrameSyncMode::Pulse && self.slot + 1
            < self.params.channels as usize {
            self.slot = self.slot + 1;
            self.padding = self.params.slot_width().saturating_sub(self.params.bits);
            self.active = true;
        } else {
            self.active = false;
        }
    }

    /// Read an event.
    pub fn on_event(&mut self, event: Event)
        requires
            old(self).well_formed(),
        ensures
            final(self).well_formed(),
            final(self).parameters() == old(self).parameters(),
            final(self)@ == after_event(old(self).parameters(), old(self)@, event),
    {
        match event.role {
            InputRole::FrameSync => self.on_frame_sync(event.time, event.bit),
            InputRole::Data => self.on_data(event.bit),
            InputRole::BitClk => self.on_bitclk(event.time, event.bit),
        }
    }

    /// The rows that the state shows.
    pub fn finish(self) -> (decoded: DecodedData)
        requires
            self.well_formed(),
        ensures
            decoded@ == rows_of(self.parameters(), self@),
    {
        let numeric_range = if self.params.bits <= 63 {
            Some(NumericRange { bits: self.params.bits, signed: self.params.signed })
        } else {
            None
        };
        let ghost all = rows_of(self.parameters(), self@);
        let mut rows: Vec<DecodedRow> = Vec::new();
        let mut i: usize = 0;
        while i < self.rows.len()
            invariant
                i <= self.rows.len(),
                numeric_range == sample_range(self.parameters()),
                all == rows_of(self.parameters(), self@),
                value::row_views(rows@) =~= all.take(i as int),
            decreases self.rows.len() - i,
        {
            let mut name = "ch".to_owned();
            text::push_decimal(&mut name, i as u64);
            let items = copy_items(&self.rows[i]);
            let row = DecodedRow { name, numeric_range, items };
            let ghost view = row@;
            let ghost before = value::row_views(rows@);
            rows.push(row);
            proof {
                assert(view =~= channel_row(self.parameters(), self@, i as int));
                assert(all[i as int] == view);
                assert(value::row_views(rows@) =~= before.push(view));
            }
            i += 1;
        }
        if self.params.show_errors {
            let ghost before = value::row_views(rows@);
            let row = DecodedRow {
                name: "errors".to_owned(),
                numeric_range,
                items: self.errors,
            };
            let ghost view = row@;
            rows.push(row);
            assert(value::row_views(rows@) =~= before.push(view));
        }
        assert(value::row_views(rows@) =~= all);
        DecodedData { rows }
    }
}

fn copy_items(items: &Vec<DecodedItem>) -> (copy: Vec<DecodedItem>)
    ensures
        value::item_views(copy@) == value::item_views(items@),
{
    let mut copy: Vec<DecodedItem> = Vec::new();
    let mut i: usize = 0;
    while i < items.len()
        invariant
            i <= items.len(),
            copy@ == items@.take(i as int),
        decreases items.len() - i,
    {
        copy.push(items[i].clone());
        i += 1;
    }
    assert(copy@ =~= items@);
    copy
}

} // verus!
