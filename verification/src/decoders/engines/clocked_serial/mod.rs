//! Clocked serial audio engine (TDM / I2S).
pub mod capture_laws;
pub mod laws;
pub mod parameter_laws;
pub mod params;
pub mod slot_laws;
pub mod state;

pub use params::{ClockedSerialParams, FrameSyncMode, Justification};

use vstd::prelude::*;
use crate::decoders::engines::{DecoderEngine, EngineParams};
use crate::decoders::error::{DecoderError, ErrorView};
use crate::decoders::input;
use crate::decoders::input::{DecoderContext, DecoderInput, SignalView, VariableValue};
use crate::decoders::settings;
use crate::decoders::settings::SettingView;
use crate::decoders::value::{DecodedData, RowView};
use params::ParamsView;
use state::{DecoderState, Event, InputRole};

verus! {

/// The changes of the three inputs.
#[verifier::ext_equal]
pub struct Changes {
    pub frame: Seq<(u64, VariableValue)>,
    pub data: Seq<(u64, VariableValue)>,
    pub clock: Seq<(u64, VariableValue)>,
}

/// How many changes of each input have been read.
#[verifier::ext_equal]
pub struct Progress {
    pub frame: nat,
    pub data: nat,
    pub clock: nat,
}

/// The input whose next change comes first. Of simultaneous changes the frame
/// sync comes first, then the data, then the clock: a clock edge samples what
/// changes together with it.
pub open spec fn next_input(changes: Changes, at: Progress) -> Option<InputRole> {
    let frame = at.frame < changes.frame.len();
    let data = at.data < changes.data.len();
    let clock = at.clock < changes.clock.len();
    let frame_time = changes.frame[at.frame as int].0;
    let data_time = changes.data[at.data as int].0;
    let clock_time = changes.clock[at.clock as int].0;
    if frame && (!data || frame_time <= data_time) && (!clock || frame_time <= clock_time) {
        Some(InputRole::FrameSync)
    } else if data && (!clock || data_time <= clock_time) {
        Some(InputRole::Data)
    } else if clock {
        Some(InputRole::BitClk)
    } else {
        None
    }
}

/// The event of a change.
pub open spec fn event_of(role: InputRole, change: (u64, VariableValue)) -> Event {
    Event { role, time: change.0, bit: input::bit_of_value(change.1) }
}

/// The next event, and the progress after it.
pub open spec fn next_event(changes: Changes, at: Progress) -> Option<(Event, Progress)> {
    match next_input(changes, at) {
        Some(InputRole::FrameSync) => Some(
            (
                event_of(InputRole::FrameSync, changes.frame[at.frame as int]),
                Progress { frame: at.frame + 1, ..at },
            ),
        ),
        Some(InputRole::Data) => Some(
            (
                event_of(InputRole::Data, changes.data[at.data as int]),
                Progress { data: at.data + 1, ..at },
            ),
        ),
        Some(InputRole::BitClk) => Some(
            (
                event_of(InputRole::BitClk, changes.clock[at.clock as int]),
                Progress { clock: at.clock + 1, ..at },
            ),
        ),
        None => None,
    }
}

/// The number of changes that have not been read.
pub open spec fn left(changes: Changes, at: Progress) -> int {
    (changes.frame.len() - at.frame) + (changes.data.len() - at.data) + (changes.clock.len()
        - at.clock)
}

/// All events from `at` on, in the order in which they are read.
pub open spec fn events_from(changes: Changes, at: Progress) -> Seq<Event>
    decreases left(changes, at),
    when at.frame <= changes.frame.len() && at.data <= changes.data.len() && at.clock
        <= changes.clock.len()
{
    match next_event(changes, at) {
        Some((event, next)) => seq![event] + events_from(changes, next),
        None => Seq::empty(),
    }
}

/// The progress before any change has been read.
pub open spec fn at_start() -> Progress {
    Progress { frame: 0, data: 0, clock: 0 }
}

/// The first fault of the inputs, if any.
pub open spec fn inputs_fault(params: ParamsView, inputs: Seq<SignalView>) -> Option<ErrorView> {
    match (
        input::input_for(inputs, params.clock, 0),
        input::input_for(inputs, params.frame, 0),
        input::input_for(inputs, params.data, 0),
    ) {
        (None, _, _) => Some(ErrorView::UnassignedInput { role: params.clock }),
        (_, None, _) => Some(ErrorView::UnassignedInput { role: params.frame }),
        (_, _, None) => Some(ErrorView::UnassignedInput { role: params.data }),
        (Some(clock), Some(frame), Some(data)) => if input::width_fault(
            clock,
            params.clock,
        ) is Some {
            input::width_fault(clock, params.clock)
        } else if input::width_fault(frame, params.frame) is Some {
            input::width_fault(frame, params.frame)
        } else {
            input::width_fault(data, params.data)
        },
    }
}

/// The changes of the inputs that the parameters name.
pub open spec fn changes_of(params: ParamsView, inputs: Seq<SignalView>) -> Changes {
    Changes {
        frame: input::input_for(inputs, params.frame, 0).unwrap().changes,
        data: input::input_for(inputs, params.data, 0).unwrap().changes,
        clock: input::input_for(inputs, params.clock, 0).unwrap().changes,
    }
}

/// What the inputs decode to.
pub open spec fn decoded_rows(params: ParamsView, inputs: Seq<SignalView>) -> Result<
    Seq<RowView>,
    ErrorView,
> {
    match (params::limits_fault(params), inputs_fault(params, inputs)) {
        (Some(fault), _) => Err(fault),
        (None, Some(fault)) => Err(fault),
        (None, None) => {
            let events = events_from(changes_of(params, inputs), at_start());
            Ok(
                state::rows_of(
                    params,
                    state::after_events(params, state::initial(params), events),
                ),
            )
        },
    }
}

/// The number of rows that the parameters ask for, as far as it can be counted.
pub open spec fn rows_shown(params: ParamsView) -> nat {
    let count = params.channels as nat + if params.show_errors {
        1nat
    } else {
        0nat
    };
    if count > usize::MAX {
        usize::MAX as nat
    } else {
        count
    }
}

/// Engine for TDM/I2S-style clocked serial audio.
pub struct ClockedSerialEngine;

impl DecoderEngine for ClockedSerialEngine {
    open spec fn identifier(&self) -> Seq<char> {
        "clocked_serial"@
    }

    open spec fn params_fault(&self, params: Map<Seq<char>, SettingView>) -> Option<ErrorView> {
        match params::typed_params(params) {
            Ok(typed) => params::limits_fault(typed),
            Err(fault) => Some(fault),
        }
    }

    open spec fn rows_for(&self, params: Map<Seq<char>, SettingView>) -> nat {
        match params::typed_params(params) {
            Ok(typed) => rows_shown(typed),
            Err(_) => 0,
        }
    }

    open spec fn decoded(
        &self,
        params: Map<Seq<char>, SettingView>,
        inputs: Seq<SignalView>,
    ) -> Result<Seq<RowView>, ErrorView> {
        match params::typed_params(params) {
            Ok(typed) => decoded_rows(typed, inputs),
            Err(fault) => Err(fault),
        }
    }

    fn id(&self) -> (id: &'static str) {
        "clocked_serial"
    }

    fn validate(&self, params: &EngineParams) -> (result: Result<(), DecoderError>) {
        match ClockedSerialParams::from_params(params) {
            Ok(typed) => typed.validate(),
            Err(error) => Err(error),
        }
    }

    fn row_count(&self, inputs: &Vec<DecoderInput>, params: &EngineParams) -> (count: usize) {
        match ClockedSerialParams::from_params(params) {
            Ok(typed) => {
                let errors: usize = if typed.show_errors {
                    1
                } else {
                    0
                };
                (typed.channels as usize).saturating_add(errors)
            },
            Err(_) => 0,
        }
    }

    fn decode(&self, params: &EngineParams, ctx: &DecoderContext<'_>) -> (result: Result<
        DecodedData,
        DecoderError,
    >) {
        match ClockedSerialParams::from_params(params) {
            Ok(typed) => self.decode_params(&typed, ctx),
            Err(error) => Err(error),
        }
    }
}

proof fn one_event_more(
    params: ParamsView,
    start: state::StateView,
    done: Seq<Event>,
    event: Event,
    rest: Seq<Event>,
)
    ensures
        state::after_events(params, start, done.push(event)) == state::after_event(
            params,
            state::after_events(params, start, done),
            event,
        ),
        done.push(event) + rest == done + (seq![event] + rest),
{
    assert(done.push(event).drop_last() =~= done);
    assert(done.push(event) + rest =~= done + (seq![event] + rest));
}

impl ClockedSerialEngine {
    /// Decode with already-resolved typed parameters.
    pub fn decode_params(&self, params: &ClockedSerialParams, ctx: &DecoderContext<'_>) -> (result:
        Result<DecodedData, DecoderError>)
        ensures
            match (result, decoded_rows(params@, input::signal_views(ctx.inputs@))) {
                (Ok(data), Ok(rows)) => data@ == rows,
                (Err(error), Err(fault)) => error@ == fault,
                _ => false,
            },
    {
        match params.validate() {
            Ok(()) => {},
            Err(error) => {
                return Err(error);
            },
        }
        let clock = match ctx.input(params.clock.as_str()) {
            Ok(clock) => clock,
            Err(error) => {
                return Err(error);
            },
        };
        let frame = match ctx.input(params.frame.as_str()) {
            Ok(frame) => frame,
            Err(error) => {
                return Err(error);
            },
        };
        let data = match ctx.input(params.data.as_str()) {
            Ok(data) => data,
            Err(error) => {
                return Err(error);
            },
        };
        match input::check_single_bit(clock, params.clock.as_str()) {
            Ok(()) => {},
            Err(error) => {
                return Err(error);
            },
        }
        match input::check_single_bit(frame, params.frame.as_str()) {
            Ok(()) => {},
            Err(error) => {
                return Err(error);
            },
        }
        match input::check_single_bit(data, params.data.as_str()) {
            Ok(()) => {},
            Err(error) => {
                return Err(error);
            },
        }
        Ok(
            decode_changes(
                params,
                frame.accessor.changes(),
                data.accessor.changes(),
                clock.accessor.changes(),
            ),
        )
    }
}

/// Decode the changes of the three inputs.
pub fn decode_changes(
    params: &ClockedSerialParams,
    frame: &Vec<(u64, VariableValue)>,
    data: &Vec<(u64, VariableValue)>,
    clock: &Vec<(u64, VariableValue)>,
) -> (decoded: DecodedData)
    requires
        params::limits_fault(params@) is None,
    ensures
        decoded@ == state::rows_of(
            params@,
            state::after_events(
                params@,
                state::initial(params@),
                events_from(Changes { frame: frame@, data: data@, clock: clock@ }, at_start()),
            ),
        ),
{
    let ghost changes = Changes { frame: frame@, data: data@, clock: clock@ };
    let ghost all = events_from(changes, at_start());
    let mut next_frame: usize = 0;
    let mut next_data: usize = 0;
    let mut next_clock: usize = 0;
    let ghost mut at = at_start();
    let mut state = DecoderState::new(params);
    let ghost mut done = Seq::<Event>::empty();
    assert(done + all =~= all);
    loop
        invariant
            changes == (Changes { frame: frame@, data: data@, clock: clock@ }),
            next_frame <= frame.len(),
            next_data <= data.len(),
            next_clock <= clock.len(),
            at == (Progress {
                frame: next_frame as nat,
                data: next_data as nat,
                clock: next_clock as nat,
            }),
            state.well_formed(),
            state.parameters() == params@,
            state@ == state::after_events(params@, state::initial(params@), done),
            done + events_from(changes, at) == all,
        ensures
            done == all,
        decreases left(changes, at),
    {
        let has_frame = next_frame < frame.len();
        let has_data = next_data < data.len();
        let has_clock = next_clock < clock.len();
        let event = if has_frame && (!has_data || frame[next_frame].0 <= data[next_data].0) && (
        !has_clock || frame[next_frame].0 <= clock[next_clock].0) {
            Event {
                role: InputRole::FrameSync,
                time: frame[next_frame].0,
                bit: input::bit_of(&frame[next_frame].1),
            }
        } else if has_data && (!has_clock || data[next_data].0 <= clock[next_clock].0) {
            Event {
                role: InputRole::Data,
                time: data[next_data].0,
                bit: input::bit_of(&data[next_data].1),
            }
        } else if has_clock {
            Event {
                role: InputRole::BitClk,
                time: clock[next_clock].0,
                bit: input::bit_of(&clock[next_clock].1),
            }
        } else {
            assert(done + Seq::<Event>::empty() =~= done);
            break;
        };
        let ghost before = at;
        match event.role {
            InputRole::FrameSync => {
                next_frame += 1;
            },
            InputRole::Data => {
                next_data += 1;
            },
            InputRole::BitClk => {
                next_clock += 1;
            },
        }
        state.on_event(event);
        proof {
            at = Progress {
                frame: next_frame as nat,
                data: next_data as nat,
                clock: next_clock as nat,
            };
            assert(next_event(changes, before) == Some((event, at)));
            one_event_more(
                params@,
                state::initial(params@),
                done,
                event,
                events_from(changes, at),
            );
            done = done.push(event);
        }
    }
    state.finish()
}

} // verus!
