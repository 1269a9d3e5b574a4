//! Biphase-mark audio engine (AES3 / S/PDIF).
//!
//! Decodes the self-clocked biphase-mark-coded line signal into audio samples.
//! The bit period is recovered from the spacing between line transitions; the
//! preambles provide frame and block synchronisation.
pub mod block_laws;
pub mod blocks;
pub mod capture_laws;
pub mod channel_status;
pub mod clock_recovery;
pub mod framing;
pub mod framing_laws;
pub mod half_cells;
pub mod line_laws;
pub mod parameter_laws;
pub mod row_laws;
pub mod rows;
pub mod status_laws;
pub mod stream_laws;
pub mod transition_laws;
pub mod transitions;

pub use framing::Preamble;

use vstd::prelude::*;
use crate::decoders::engines::{DecoderEngine, EngineParams};
use crate::decoders::error::{DecoderError, ErrorView};
use crate::decoders::input;
use crate::decoders::input::{DecoderContext, DecoderInput, SignalView};
use crate::decoders::settings;
use crate::decoders::settings::SettingView;
use crate::decoders::value::{DecodedData, RowView};
use crate::text;

verus! {

/// Audio word length.
#[derive(Debug, Clone, Copy, PartialEq, Eq, Structural)]
pub enum WordBits {
    Auto,
    Bits(u32),
}

/// Parameters for the biphase-mark audio engine.
#[derive(Debug, PartialEq)]
pub struct BiphaseAudioParams {
    /// Input role carrying the biphase-mark-coded line.
    pub data: String,
    /// Optional input role carrying a bit clock; both edges are sampled.
    pub bitclk: String,
    pub word_bits: WordBits,
    pub signed: bool,
    pub show_validity: bool,
    pub show_user: bool,
    pub show_status: bool,
    pub show_parity_errors: bool,
    pub show_preambles: bool,
}

/// A [`BiphaseAudioParams`] with its texts as sequences of characters.
#[verifier::ext_equal]
pub struct ParamsView {
    pub data: Seq<char>,
    pub bitclk: Seq<char>,
    pub word_bits: WordBits,
    pub signed: bool,
    pub show_validity: bool,
    pub show_user: bool,
    pub show_status: bool,
    pub show_parity_errors: bool,
    pub show_preambles: bool,
}

impl View for BiphaseAudioParams {
    type V = ParamsView;

    open spec fn view(&self) -> ParamsView {
        ParamsView {
            data: self.data@,
            bitclk: self.bitclk@,
            word_bits: self.word_bits,
            signed: self.signed,
            show_validity: self.show_validity,
            show_user: self.show_user,
            show_status: self.show_status,
            show_parity_errors: self.show_parity_errors,
            show_preambles: self.show_preambles,
        }
    }
}

impl Clone for BiphaseAudioParams {
    fn clone(&self) -> (copy: Self)
        ensures
            copy@ == self@,
    {
        BiphaseAudioParams {
            data: self.data.clone(),
            bitclk: self.bitclk.clone(),
            word_bits: self.word_bits,
            signed: self.signed,
            show_validity: self.show_validity,
            show_user: self.show_user,
            show_status: self.show_status,
            show_parity_errors: self.show_parity_errors,
            show_preambles: self.show_preambles,
        }
    }
}

/// The word length that a parameter names.
pub open spec fn word_bits_named(name: Seq<char>) -> Option<WordBits> {
    if name == "auto"@ {
        Some(WordBits::Auto)
    } else if name == "16"@ {
        Some(WordBits::Bits(16))
    } else if name == "20"@ {
        Some(WordBits::Bits(20))
    } else if name == "24"@ {
        Some(WordBits::Bits(24))
    } else {
        None
    }
}

/// The typed parameters that generic engine parameters stand for.
pub open spec fn typed_params(params: Map<Seq<char>, SettingView>) -> Result<
    ParamsView,
    ErrorView,
> {
    match (
        settings::enum_in(params, "data"@),
        word_bits_named(settings::enum_or(params, "word_bits"@, "auto"@)),
    ) {
        (None, _) => Err(ErrorView::MissingParameter { name: "data"@ }),
        (_, None) => Err(ErrorView::InvalidParameter { name: "word_bits"@ }),
        (Some(data), Some(word_bits)) => Ok(
            ParamsView {
                data,
                bitclk: settings::enum_or(params, "bitclk"@, "bitclk"@),
                word_bits,
                signed: settings::bool_in(params, "signed"@, true),
                show_validity: settings::bool_in(params, "show_validity"@, false),
                show_user: settings::bool_in(params, "show_user"@, false),
                show_status: settings::bool_in(params, "show_status"@, true),
                show_parity_errors: settings::bool_in(params, "show_parity_errors"@, true),
                show_preambles: settings::bool_in(params, "show_preambles"@, true),
            },
        ),
    }
}

/// The number of rows that the parameters ask for.
pub open spec fn rows_shown(params: ParamsView) -> nat {
    (2 + blocks::bit_value(params.show_validity) + blocks::bit_value(params.show_user)
        + blocks::bit_value(params.show_status) + blocks::bit_value(params.show_parity_errors)
        + blocks::bit_value(params.show_preambles)) as nat
}

impl BiphaseAudioParams {
    /// Resolve the typed parameters from generic engine parameters.
    pub fn from_params(params: &EngineParams) -> (result: Result<Self, DecoderError>)
        ensures
            match (result, typed_params(settings::setting_views(params@))) {
                (Ok(typed), Ok(view)) => typed@ == view,
                (Err(error), Err(fault)) => error@ == fault,
                _ => false,
            },
    {
        let data = match settings::enum_of(params, "data") {
            Some(data) => data,
            None => {
                return Err(DecoderError::MissingParameter { name: "data".to_owned() });
            },
        };
        let named = settings::text_or(params, "word_bits", "auto");
        let name = named.as_str();
        let word_bits = if text::same_text(name, "auto") {
            WordBits::Auto
        } else if text::same_text(name, "16") {
            WordBits::Bits(16)
        } else if text::same_text(name, "20") {
            WordBits::Bits(20)
        } else if text::same_text(name, "24") {
            WordBits::Bits(24)
        } else {
            return Err(DecoderError::InvalidParameter { name: "word_bits".to_owned() });
        };
        Ok(
            BiphaseAudioParams {
                data,
                bitclk: settings::text_or(params, "bitclk", "bitclk"),
                word_bits,
                signed: settings::bool_of(params, "signed", true),
                show_validity: settings::bool_of(params, "show_validity", false),
                show_user: settings::bool_of(params, "show_user", false),
                show_status: settings::bool_of(params, "show_status", true),
                show_parity_errors: settings::bool_of(params, "show_parity_errors", true),
                show_preambles: settings::bool_of(params, "show_preambles", true),
            },
        )
    }

    /// The number of rows that these parameters ask for.
    pub fn row_count(&self) -> (count: usize)
        ensures
            count == rows_shown(self@),
    {
        let mut count: usize = 2;
        if self.show_validity {
            count += 1;
        }
        if self.show_user {
            count += 1;
        }
        if self.show_status {
            count += 1;
        }
        if self.show_parity_errors {
            count += 1;
        }
        if self.show_preambles {
            count += 1;
        }
        count
    }
}

/// The half-cells of the data line, and the half period if it was recovered
/// from the line itself: with a bit clock, the line is sampled at its edges.
pub open spec fn half_cells_of(params: ParamsView, data: SignalView, inputs: Seq<SignalView>) -> Result<
    (Seq<(u64, bool)>, Option<u64>),
    ErrorView,
> {
    let line = transitions::settled(transitions::known_levels(data.changes));
    match input::input_for(inputs, params.bitclk, 0) {
        Some(clock) => match input::width_fault(clock, params.bitclk) {
            Some(fault) => Err(fault),
            None => if transitions::all_known(clock.changes) {
                let edges = transitions::settled(transitions::known_levels(clock.changes));
                Ok((transitions::sampled(line, edges), None))
            } else {
                Err(ErrorView::NonBinaryClock)
            },
        },
        None => match half_cells::recovered(line) {
            Ok((cells, half_period)) => Ok((cells, Some(half_period))),
            Err(fault) => Err(fault),
        },
    }
}

/// What the inputs decode to.
pub open spec fn decoded_rows(params: ParamsView, inputs: Seq<SignalView>) -> Result<
    Seq<RowView>,
    ErrorView,
> {
    match input::input_for(inputs, params.data, 0) {
        None => Err(ErrorView::UnassignedInput { role: params.data }),
        Some(data) => match input::width_fault(data, params.data) {
            Some(fault) => Err(fault),
            None => match half_cells_of(params, data, inputs) {
                Err(fault) => Err(fault),
                Ok((cells, half_period)) => {
                    let subframes = framing::subframes_of(cells, half_period);
                    if subframes.len() == 0 {
                        Err(ErrorView::NoPreambles)
                    } else {
                        Ok(rows::rows_of(params, subframes))
                    }
                },
            },
        },
    }
}

/// Engine for AES3 / S/PDIF biphase-mark audio.
pub struct BiphaseAudioEngine;

impl DecoderEngine for BiphaseAudioEngine {
    open spec fn identifier(&self) -> Seq<char> {
        "biphase_audio"@
    }

    open spec fn params_fault(&self, params: Map<Seq<char>, SettingView>) -> Option<ErrorView> {
        match typed_params(params) {
            Ok(_) => None,
            Err(fault) => Some(fault),
        }
    }

    open spec fn rows_for(&self, params: Map<Seq<char>, SettingView>) -> nat {
        match typed_params(params) {
            Ok(typed) => rows_shown(typed),
            Err(_) => 0,
        }
    }

    open spec fn decoded(
        &self,
        params: Map<Seq<char>, SettingView>,
        inputs: Seq<SignalView>,
    ) -> Result<Seq<RowView>, ErrorView> {
        match typed_params(params) {
            Ok(typed) => decoded_rows(typed, inputs),
            Err(fault) => Err(fault),
        }
    }

    fn id(&self) -> (id: &'static str) {
        "biphase_audio"
    }

    fn validate(&self, params: &EngineParams) -> (result: Result<(), DecoderError>) {
        match BiphaseAudioParams::from_params(params) {
            Ok(_) => Ok(()),
            Err(error) => Err(error),
        }
    }

    fn row_count(&self, inputs: &Vec<DecoderInput>, params: &EngineParams) -> (count: usize) {
        match BiphaseAudioParams::from_params(params) {
            Ok(typed) => typed.row_count(),
            Err(_) => 0,
        }
    }

    fn decode(&self, params: &EngineParams, ctx: &DecoderContext<'_>) -> (result: Result<
        DecodedData,
        DecoderError,
    >) {
        match BiphaseAudioParams::from_params(params) {
            Ok(typed) => self.decode_params(&typed, ctx),
            Err(error) => Err(error),
        }
    }
}

impl BiphaseAudioEngine {
    /// Decode with already-resolved typed parameters.
    pub fn decode_params(&self, params: &BiphaseAudioParams, ctx: &DecoderContext<'_>) -> (result:
        Result<DecodedData, DecoderError>)
        requires
            params.signed ==> params.word_bits != WordBits::Bits(0),
        ensures
            match (result, decoded_rows(params@, input::signal_views(ctx.inputs@))) {
                (Ok(data), Ok(rows)) => data@ == rows,
                (Err(error), Err(fault)) => error@ == fault,
                _ => false,
            },
    {
        let data = match ctx.input(params.data.as_str()) {
            Ok(data) => data,
            Err(error) => {
                return Err(error);
            },
        };
        match input::check_single_bit(data, params.data.as_str()) {
            Ok(()) => {},
            Err(error) => {
                return Err(error);
            },
        }
        let line = match transitions::collect_transitions(&data.accessor, true) {
            Ok(line) => line,
            Err(error) => {
                return Err(error);
            },
        };
        let (cells, half_period) = match ctx.optional_input(params.bitclk.as_str()) {
            Some(bitclk) => {
                match input::check_single_bit(bitclk, params.bitclk.as_str()) {
                    Ok(()) => {},
                    Err(error) => {
                        return Err(error);
                    },
                }
                match transitions::collect_transitions(&bitclk.accessor, false) {
                    Ok(clock) => {
                        proof {
                            transitions::walk_samples_line(line@, clock@);
                        }
                        (transitions::sample_half_cells(&line, &clock), None)
                    },
                    Err(error) => {
                        return Err(error);
                    },
                }
            },
            None => match half_cells::decode_half_cells(&line) {
                Ok((cells, half_period)) => (cells, Some(half_period)),
                Err(error) => {
                    return Err(error);
                },
            },
        };
        let subframes = framing::find_subframes(&cells, half_period);
        if subframes.len() == 0 {
            return Err(DecoderError::NoPreambles);
        }
        proof {
            framing::subframes_have_channels(cells@, half_period);
        }
        Ok(rows::build_rows(params, &subframes))
    }
}

/// Decoding gives as many rows as the parameters ask for.
pub proof fn row_count_is_exact(params: ParamsView, inputs: Seq<SignalView>)
    requires
        decoded_rows(params, inputs) is Ok,
    ensures
        decoded_rows(params, inputs)->Ok_0.len() == rows_shown(params),
{
}

} // verus!
