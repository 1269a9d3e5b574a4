//! What a decoder is.
use vstd::prelude::*;
use crate::decoders::error::{DecoderError, ErrorView};
use crate::decoders::input;
use crate::decoders::input::{
    DecoderContext, DecoderInput, InputSpec, InputSpecView, SignalView,
};
use crate::decoders::settings;
use crate::decoders::settings::{DecoderSettings, FieldView, SettingView, SettingsSchema};
use crate::decoders::value::{DecodedData, RowView};

verus! {

/// A decoder that turns input signals into structured data.
pub trait SignalDecoder: Send + Sync {
    /// The decoder's identifier.
    spec fn identifier(&self) -> Seq<char>;

    /// The decoder's name.
    spec fn title(&self) -> Seq<char>;

    /// The inputs of the decoder.
    spec fn needs(&self) -> Seq<InputSpecView>;

    /// The settings of the decoder.
    spec fn fields(&self) -> Seq<FieldView>;

    /// What is wrong with settings, if anything.
    spec fn settings_fault(&self, stored: Map<Seq<char>, SettingView>) -> Option<ErrorView>;

    /// The number of rows for some settings.
    spec fn rows_for(&self, stored: Map<Seq<char>, SettingView>) -> nat;

    /// What the inputs decode to with some settings.
    spec fn decoded(
        &self,
        stored: Map<Seq<char>, SettingView>,
        inputs: Seq<SignalView>,
    ) -> Result<Seq<RowView>, ErrorView>;

    /// Stable identifier used in state files and commands.
    fn id(&self) -> (id: &str)
        ensures
            id@ == self.identifier(),
    ;

    /// Human-readable name shown to the user.
    fn display_name(&self) -> (name: &str)
        ensures
            name@ == self.title(),
    ;

    /// The inputs this decoder needs.
    fn inputs(&self) -> (inputs: &Vec<InputSpec>)
        ensures
            input::spec_views(inputs@) == self.needs(),
    ;

    /// The settings this decoder accepts.
    fn settings_schema(&self) -> (schema: &SettingsSchema)
        ensures
            schema@ == self.fields(),
    ;

    /// Default settings for this decoder.
    fn default_settings(&self) -> (defaults: DecoderSettings)
        ensures
            defaults@ == settings::declared_defaults(self.fields(), self.fields().len()),
    {
        self.settings_schema().defaults()
    }

    /// Validate settings, returning an error if they are invalid.
    fn validate_settings(&self, stored: &DecoderSettings) -> (result: Result<(), DecoderError>)
        ensures
            match (result, self.settings_fault(stored@)) {
                (Ok(()), None) => true,
                (Err(error), Some(fault)) => error@ == fault,
                _ => false,
            },
    ;

    /// Number of display rows for the given inputs and settings.
    fn row_count(&self, inputs: &Vec<DecoderInput>, stored: &DecoderSettings) -> (count: usize)
        ensures
            count == self.rows_for(stored@),
    ;

    /// Decode the input signals.
    fn decode(&self, ctx: &DecoderContext<'_>) -> (result: Result<DecodedData, DecoderError>)
        ensures
            match (result, self.decoded(ctx.settings@, input::signal_views(ctx.inputs@))) {
                (Ok(data), Ok(rows)) => data@ == rows,
                (Err(error), Err(fault)) => error@ == fault,
                _ => false,
            },
    ;
}

} // verus!
