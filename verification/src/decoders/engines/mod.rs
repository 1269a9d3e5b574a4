//! Decoder engines: parameterized protocol implementations driven by schemas.
pub mod biphase_audio;
pub mod clocked_serial;

use vstd::prelude::*;
use biphase_audio::BiphaseAudioEngine;
use clocked_serial::ClockedSerialEngine;
use crate::decoders::error::{DecoderError, ErrorView};
use crate::decoders::input;
use crate::decoders::input::{DecoderContext, DecoderInput, SignalView};
use crate::decoders::settings;
use crate::decoders::settings::{SettingValue, SettingView};
use crate::decoders::value::{DecodedData, RowView};
use crate::keymap::KeyMap;
use crate::text;

verus! {

/// Parameters passed to a decoder engine.
pub type EngineParams = KeyMap<SettingValue>;

/// A parameterized protocol implementation.
pub trait DecoderEngine: Send + Sync {
    /// The engine's identifier.
    spec fn identifier(&self) -> Seq<char>;

    /// What is wrong with parameters, if anything.
    spec fn params_fault(&self, params: Map<Seq<char>, SettingView>) -> Option<ErrorView>;

    /// The number of rows for some parameters.
    spec fn rows_for(&self, params: Map<Seq<char>, SettingView>) -> nat;

    /// What the inputs decode to with some parameters.
    spec fn decoded(
        &self,
        params: Map<Seq<char>, SettingView>,
        inputs: Seq<SignalView>,
    ) -> Result<Seq<RowView>, ErrorView>;

    /// Stable engine identifier used in schemas.
    fn id(&self) -> (id: &'static str)
        ensures
            id@ == self.identifier(),
    ;

    /// Validate the resolved parameters.
    fn validate(&self, params: &EngineParams) -> (result: Result<(), DecoderError>)
        ensures
            match (result, self.params_fault(settings::setting_views(params@))) {
                (Ok(()), None) => true,
                (Err(error), Some(fault)) => error@ == fault,
                _ => false,
            },
    ;

    /// Number of display rows for the given inputs and parameters.
    fn row_count(&self, inputs: &Vec<DecoderInput>, params: &EngineParams) -> (count: usize)
        ensures
            count == self.rows_for(settings::setting_views(params@)),
    ;

    /// Decode the input signals.
    fn decode(&self, params: &EngineParams, ctx: &DecoderContext<'_>) -> (result: Result<
        DecodedData,
        DecoderError,
    >)
        ensures
            match (
                result,
                self.decoded(
                    settings::setting_views(params@),
                    input::signal_views(ctx.inputs@),
                ),
            ) {
                (Ok(data), Ok(rows)) => data@ == rows,
                (Err(error), Err(fault)) => error@ == fault,
                _ => false,
            },
    ;
}

/// One of the engines.
#[derive(Debug, Clone, Copy, PartialEq, Eq, Structural)]
pub enum Engine {
    /// [`ClockedSerialEngine`].
    ClockedSerial,
    /// [`BiphaseAudioEngine`].
    BiphaseAudio,
}

impl DecoderEngine for Engine {
    open spec fn identifier(&self) -> Seq<char> {
        match *self {
            Engine::ClockedSerial => ClockedSerialEngine.identifier(),
            Engine::BiphaseAudio => BiphaseAudioEngine.identifier(),
        }
    }

    open spec fn params_fault(&self, params: Map<Seq<char>, SettingView>) -> Option<ErrorView> {
        match *self {
            Engine::ClockedSerial => ClockedSerialEngine.params_fault(params),
            Engine::BiphaseAudio => BiphaseAudioEngine.params_fault(params),
        }
    }

    open spec fn rows_for(&self, params: Map<Seq<char>, SettingView>) -> nat {
        match *self {
            Engine::ClockedSerial => ClockedSerialEngine.rows_for(params),
            Engine::BiphaseAudio => BiphaseAudioEngine.rows_for(params),
        }
    }

    open spec fn decoded(
        &self,
        params: Map<Seq<char>, SettingView>,
        inputs: Seq<SignalView>,
    ) -> Result<Seq<RowView>, ErrorView> {
        match *self {
            Engine::ClockedSerial => ClockedSerialEngine.decoded(params, inputs),
            Engine::BiphaseAudio => BiphaseAudioEngine.decoded(params, inputs),
        }
    }

    fn id(&self) -> (id: &'static str) {
        match self {
            Engine::ClockedSerial => ClockedSerialEngine.id(),
            Engine::BiphaseAudio => BiphaseAudioEngine.id(),
        }
    }

    fn validate(&self, params: &EngineParams) -> (result: Result<(), DecoderError>) {
        match self {
            Engine::ClockedSerial => ClockedSerialEngine.validate(params),
            Engine::BiphaseAudio => BiphaseAudioEngine.validate(params),
        }
    }

    fn row_count(&self, inputs: &Vec<DecoderInput>, params: &EngineParams) -> (count: usize) {
        match self {
            Engine::ClockedSerial => ClockedSerialEngine.row_count(inputs, params),
            Engine::BiphaseAudio => BiphaseAudioEngine.row_count(inputs, params),
        }
    }

    fn decode(&self, params: &EngineParams, ctx: &DecoderContext<'_>) -> (result: Result<
        DecodedData,
        DecoderError,
    >) {
        match self {
            Engine::ClockedSerial => ClockedSerialEngine.decode(params, ctx),
            Engine::BiphaseAudio => BiphaseAudioEngine.decode(params, ctx),
        }
    }
}

/// All engines.
pub fn all_engines() -> (engines: Vec<Engine>)
    ensures
        engines@ == seq![Engine::ClockedSerial, Engine::BiphaseAudio],
{
    let mut engines: Vec<Engine> = Vec::new();
    engines.push(Engine::ClockedSerial);
    engines.push(Engine::BiphaseAudio);
    assert(engines@ =~= seq![Engine::ClockedSerial, Engine::BiphaseAudio]);
    engines
}

/// The engine with an identifier.
pub open spec fn engine_named(id: Seq<char>) -> Option<Engine> {
    if id == Engine::ClockedSerial.identifier() {
        Some(Engine::ClockedSerial)
    } else if id == Engine::BiphaseAudio.identifier() {
        Some(Engine::BiphaseAudio)
    } else {
        None
    }
}

/// Look up an engine by its [`DecoderEngine::id`].
pub fn engine_by_id(id: &str) -> (engine: Option<Engine>)
    ensures
        engine == engine_named(id@),
{
    let engines = all_engines();
    if text::same_text(engines[0].id(), id) {
        Some(engines[0])
    } else if text::same_text(engines[1].id(), id) {
        Some(engines[1])
    } else {
        None
    }
}

/// Every engine is found under its identifier.
pub proof fn engines_are_found(engine: Engine)
    ensures
        engine_named(engine.identifier()) == Some(engine),
{
    reveal_strlit("clocked_serial");
    reveal_strlit("biphase_audio");
    assert("clocked_serial"@[0] != "biphase_audio"@[0]);
}

/// Decoding gives as many rows as were announced.
pub proof fn rows_are_as_announced(
    engine: Engine,
    params: Map<Seq<char>, SettingView>,
    inputs: Seq<SignalView>,
)
    requires
        engine.decoded(params, inputs) is Ok,
    ensures
        engine.decoded(params, inputs)->Ok_0.len() == engine.rows_for(params),
{
    match engine {
        Engine::ClockedSerial => {
            clocked_serial::laws::row_count_is_exact(
                clocked_serial::params::typed_params(params)->Ok_0,
                inputs,
            );
        },
        Engine::BiphaseAudio => {
            biphase_audio::row_count_is_exact(
                biphase_audio::typed_params(params)->Ok_0,
                inputs,
            );
        },
    }
}

} // verus!
