//! Why decoding, or setting up a decoder, fails.
use vstd::prelude::*;
#[allow(unused_imports)]
use vstd::string::*;
use crate::text;

verus! {

/// Why decoding, or setting up a decoder, fails.
#[derive(Debug, PartialEq)]
pub enum DecoderError {
    /// The settings hold no value for the setting with this label.
    MissingSetting { label: String },
    /// The value of the setting with this label is outside its bounds.
    SettingOutOfRange { label: String, min: i64, max: i64 },
    /// The value is no option of the setting with this label.
    InvalidSettingValue { value: String, label: String },
    /// The value of the setting with this label has another type.
    WrongSettingType { label: String },
    /// No signal is assigned to this input role.
    UnassignedInput { role: String },
    /// The waveform has no variable of this name.
    UnknownVariable { variable: String },
    /// The signal of this variable has not been loaded.
    SignalNotLoaded { variable: String },
    /// The default of the setting with this key is neither a boolean, an integer, nor a string.
    InvalidDefault { key: String },
    /// A setting has this type, which does not exist.
    UnknownSettingType { kind: String },
    /// An engine parameter refers to a setting that is not declared.
    UnknownSettingReference { key: String, setting: String },
    /// This engine parameter is neither a boolean, an integer, nor a string.
    InvalidEngineParameter { key: String },
    /// There is no engine of this name.
    UnknownEngine { engine: String },
    /// This engine parameter is required.
    MissingParameter { name: String },
    /// This engine parameter has a value that it cannot take.
    InvalidParameter { name: String },
    /// A sample has no bits, or more than 64.
    BitsOutOfRange,
    /// A frame has no channels.
    NoChannels,
    /// A frame has more channels than the engine supports.
    TooManyChannels,
    /// Level mode was asked for with a channel count other than two.
    LevelModeChannels,
    /// A slot is narrower than a sample.
    SlotTooNarrow,
    /// The signal assigned to this role does not have one bit.
    NotSingleBit { role: String, variable: String, bits: Option<u32> },
    /// The bit clock takes a value other than 0 and 1.
    NonBinaryClock,
    /// The line has fewer than two transitions.
    NotEnoughTransitions,
    /// No half period explains the gaps between the transitions.
    NoBitClock,
    /// The line carries no framing headers.
    NoPreambles,
}

/// A [`DecoderError`] with its strings as sequences of characters.
pub enum ErrorView {
    MissingSetting { label: Seq<char> },
    SettingOutOfRange { label: Seq<char>, min: i64, max: i64 },
    InvalidSettingValue { value: Seq<char>, label: Seq<char> },
    WrongSettingType { label: Seq<char> },
    UnassignedInput { role: Seq<char> },
    UnknownVariable { variable: Seq<char> },
    SignalNotLoaded { variable: Seq<char> },
    InvalidDefault { key: Seq<char> },
    UnknownSettingType { kind: Seq<char> },
    UnknownSettingReference { key: Seq<char>, setting: Seq<char> },
    InvalidEngineParameter { key: Seq<char> },
    UnknownEngine { engine: Seq<char> },
    MissingParameter { name: Seq<char> },
    InvalidParameter { name: Seq<char> },
    BitsOutOfRange,
    NoChannels,
    TooManyChannels,
    LevelModeChannels,
    SlotTooNarrow,
    NotSingleBit { role: Seq<char>, variable: Seq<char>, bits: Option<u32> },
    NonBinaryClock,
    NotEnoughTransitions,
    NoBitClock,
    NoPreambles,
}

impl View for DecoderError {
    type V = ErrorView;

    open spec fn view(&self) -> ErrorView {
        match *self {
            DecoderError::MissingSetting { label } => ErrorView::MissingSetting { label: label@ },
            DecoderError::SettingOutOfRange { label, min, max } => ErrorView::SettingOutOfRange { label: label@, min, max },
            DecoderError::InvalidSettingValue { value, label } => ErrorView::InvalidSettingValue { value: value@, label: label@ },
            DecoderError::WrongSettingType { label } => ErrorView::WrongSettingType { label: label@ },
            DecoderError::UnassignedInput { role } => ErrorView::UnassignedInput { role: role@ },
            DecoderError::UnknownVariable { variable } => ErrorView::UnknownVariable { variable: variable@ },
            DecoderError::SignalNotLoaded { variable } => ErrorView::SignalNotLoaded { variable: variable@ },
            DecoderError::InvalidDefault { key } => ErrorView::InvalidDefault { key: key@ },
            DecoderError::UnknownSettingType { kind } => ErrorView::UnknownSettingType { kind: kind@ },
            DecoderError::UnknownSettingReference { key, setting } => ErrorView::UnknownSettingReference { key: key@, setting: setting@ },
            DecoderError::InvalidEngineParameter { key } => ErrorView::InvalidEngineParameter { key: key@ },
            DecoderError::UnknownEngine { engine } => ErrorView::UnknownEngine { engine: engine@ },
            DecoderError::MissingParameter { name } => ErrorView::MissingParameter { name: name@ },
            DecoderError::InvalidParameter { name } => ErrorView::InvalidParameter { name: name@ },
            DecoderError::BitsOutOfRange => ErrorView::BitsOutOfRange,
            DecoderError::NoChannels => ErrorView::NoChannels,
            DecoderError::TooManyChannels => ErrorView::TooManyChannels,
            DecoderError::LevelModeChannels => ErrorView::LevelModeChannels,
            DecoderError::SlotTooNarrow => ErrorView::SlotTooNarrow,
            DecoderError::NotSingleBit { role, variable, bits } => ErrorView::NotSingleBit { role: role@, variable: variable@, bits },
            DecoderError::NonBinaryClock => ErrorView::NonBinaryClock,
            DecoderError::NotEnoughTransitions => ErrorView::NotEnoughTransitions,
            DecoderError::NoBitClock => ErrorView::NoBitClock,
            DecoderError::NoPreambles => ErrorView::NoPreambles,
        }
    }
}

/// The text for a bit count that may be unknown.
pub open spec fn bit_count_text(bits: Option<u32>) -> Seq<char> {
    match bits {
        Some(n) => text::decimal(n as nat),
        None => "an unknown number of"@,
    }
}

/// The message shown for an error.
pub open spec fn error_message(error: ErrorView) -> Seq<char> {
    match error {
        ErrorView::MissingSetting { label } => "Missing setting '"@ + label + "'"@,
        ErrorView::SettingOutOfRange { label, min, max } => "Setting '"@ + label + "' must be between "@ + text::signed_decimal(min as int) + " and "@ + text::signed_decimal(max as int),
        ErrorView::InvalidSettingValue { value, label } => "Invalid value '"@ + value + "' for setting '"@ + label + "'"@,
        ErrorView::WrongSettingType { label } => "Setting '"@ + label + "' has the wrong type"@,
        ErrorView::UnassignedInput { role } => "No signal assigned to decoder input '"@ + role + "'"@,
        ErrorView::UnknownVariable { variable } => "Unknown variable '"@ + variable + "'"@,
        ErrorView::SignalNotLoaded { variable } => "The signal of variable '"@ + variable + "' is not loaded"@,
        ErrorView::InvalidDefault { key } => "Invalid default value for setting '"@ + key + "'"@,
        ErrorView::UnknownSettingType { kind } => "Unknown setting type '"@ + kind + "'"@,
        ErrorView::UnknownSettingReference { key, setting } => "Engine parameter '"@ + key + "' references unknown setting '"@ + setting + "'"@,
        ErrorView::InvalidEngineParameter { key } => "Invalid engine parameter '"@ + key + "'"@,
        ErrorView::UnknownEngine { engine } => "Unknown decoder engine '"@ + engine + "'"@,
        ErrorView::MissingParameter { name } => "Missing engine parameter '"@ + name + "'"@,
        ErrorView::InvalidParameter { name } => "Invalid '"@ + name + "' parameter"@,
        ErrorView::BitsOutOfRange => "bits must be between 1 and 64"@,
        ErrorView::NoChannels => "channels must be at least 1"@,
        ErrorView::TooManyChannels => "channels must be at most 1024"@,
        ErrorView::LevelModeChannels => "level frame sync mode supports exactly 2 channels"@,
        ErrorView::SlotTooNarrow => "slot_width must be at least bits"@,
        ErrorView::NotSingleBit { role, variable, bits } => "decoder input '"@ + role + "' must be a 1-bit signal, but '"@ + variable + "' has "@ + bit_count_text(bits) + " bits"@,
        ErrorView::NonBinaryClock => "biphase clock contains non-binary values"@,
        ErrorView::NotEnoughTransitions => "not enough transitions to recover the bit clock"@,
        ErrorView::NoBitClock => "could not recover the bit clock"@,
        ErrorView::NoPreambles => "no S/PDIF / AES3 preambles found"@,
    }
}

impl DecoderError {
    /// The message shown for this error.
    pub fn message(&self) -> (text: String)
        ensures
            text@ == error_message(self@),
    {
        let mut text = String::new();
        match self {
            DecoderError::MissingSetting { label } => {
                text.append("Missing setting '");
                text.append(label.as_str());
                text.append("'");
            },
            DecoderError::SettingOutOfRange { label, min, max } => {
                text.append("Setting '");
                text.append(label.as_str());
                text.append("' must be between ");
                text::push_signed(&mut text, *min);
                text.append(" and ");
                text::push_signed(&mut text, *max);
            },
            DecoderError::InvalidSettingValue { value, label } => {
                text.append("Invalid value '");
                text.append(value.as_str());
                text.append("' for setting '");
                text.append(label.as_str());
                text.append("'");
            },
            DecoderError::WrongSettingType { label } => {
                text.append("Setting '");
                text.append(label.as_str());
                text.append("' has the wrong type");
            },
            DecoderError::UnassignedInput { role } => {
                text.append("No signal assigned to decoder input '");
                text.append(role.as_str());
                text.append("'");
            },
            DecoderError::UnknownVariable { variable } => {
                text.append("Unknown variable '");
                text.append(variable.as_str());
                text.append("'");
            },
            DecoderError::SignalNotLoaded { variable } => {
                text.append("The signal of variable '");
                text.append(variable.as_str());
                text.append("' is not loaded");
            },
            DecoderError::InvalidDefault { key } => {
                text.append("Invalid default value for setting '");
                text.append(key.as_str());
                text.append("'");
            },
            DecoderError::UnknownSettingType { kind } => {
                text.append("Unknown setting type '");
                text.append(kind.as_str());
                text.append("'");
            },
            DecoderError::UnknownSettingReference { key, setting } => {
                text.append("Engine parameter '");
                text.append(key.as_str());
                text.append("' references unknown setting '");
                text.append(setting.as_str());
                text.append("'");
            },
            DecoderError::InvalidEngineParameter { key } => {
                text.append("Invalid engine parameter '");
                text.append(key.as_str());
                text.append("'");
            },
            DecoderError::UnknownEngine { engine } => {
                text.append("Unknown decoder engine '");
                text.append(engine.as_str());
                text.append("'");
            },
            DecoderError::MissingParameter { name } => {
                text.append("Missing engine parameter '");
                text.append(name.as_str());
                text.append("'");
            },
            DecoderError::InvalidParameter { name } => {
                text.append("Invalid '");
                text.append(name.as_str());
                text.append("' parameter");
            },
            DecoderError::BitsOutOfRange => {
                text.append("bits must be between 1 and 64");
            },
            DecoderError::NoChannels => {
                text.append("channels must be at least 1");
            },
            DecoderError::TooManyChannels => {
                text.append("channels must be at most 1024");
            },
            DecoderError::LevelModeChannels => {
                text.append("level frame sync mode supports exactly 2 channels");
            },
            DecoderError::SlotTooNarrow => {
                text.append("slot_width must be at least bits");
            },
            DecoderError::NotSingleBit { role, variable, bits } => {
                text.append("decoder input '");
                text.append(role.as_str());
                text.append("' must be a 1-bit signal, but '");
                text.append(variable.as_str());
                text.append("' has ");
                match bits {
                    Some(n) => text::push_decimal(&mut text, *n as u64),
                    None => text.append("an unknown number of"),
                }
                text.append(" bits");
            },
            DecoderError::NonBinaryClock => {
                text.append("biphase clock contains non-binary values");
            },
            DecoderError::NotEnoughTransitions => {
                text.append("not enough transitions to recover the bit clock");
            },
            DecoderError::NoBitClock => {
                text.append("could not recover the bit clock");
            },
            DecoderError::NoPreambles => {
                text.append("no S/PDIF / AES3 preambles found");
            },
        }
        assert(text@ =~= error_message(self@));
        text
    }
}

} // verus!
