//! What the application is told to do.
use vstd::prelude::*;
use crate::decoders::input;
use crate::decoders::input::{DecoderInput, InputView, VariableRef, VariableView};
use crate::decoders::settings::{DecoderSettings, SettingView};
use crate::decoders::value::ValueFormat;
use crate::displayed::{AnalogSettings, DisplayedItemRef};

verus! {

/// What happens to the waveform that is open when another one is loaded.
#[derive(Debug, Clone, Copy, PartialEq, Eq, Structural)]
pub enum LoadOptions {
    /// Everything that is displayed is removed.
    Clear,
}

/// A decoder as configured by the user.
#[derive(Debug, PartialEq)]
pub struct DecoderChoice {
    pub decoder: String,
    pub inputs: Vec<DecoderInput>,
    pub settings: DecoderSettings,
    pub show_samples: bool,
    pub value_format: ValueFormat,
    pub analog: Option<AnalogSettings>,
}

/// A [`DecoderChoice`] with its texts as sequences of characters.
#[verifier::ext_equal]
pub struct ChoiceView {
    pub decoder: Seq<char>,
    pub inputs: Seq<InputView>,
    pub settings: Map<Seq<char>, SettingView>,
    pub show_samples: bool,
    pub value_format: ValueFormat,
    pub analog: Option<AnalogSettings>,
}

impl View for DecoderChoice {
    type V = ChoiceView;

    open spec fn view(&self) -> ChoiceView {
        ChoiceView {
            decoder: self.decoder@,
            inputs: input::input_views(self.inputs@),
            settings: self.settings@,
            show_samples: self.show_samples,
            value_format: self.value_format,
            analog: self.analog,
        }
    }
}

/// What the application is told to do.
#[derive(Debug, PartialEq)]
pub enum Message {
    /// Load a waveform file.
    LoadFile(String, LoadOptions),
    /// Display variables.
    AddVariables(Vec<VariableRef>),
    /// Add a decoder.
    AddDecoder(DecoderChoice),
    /// Change a decoder that is displayed.
    UpdateDecoder(DisplayedItemRef, DecoderChoice),
    /// Close the decoder dialog.
    HideDecoderDialog,
    /// Close the dialog that offers to load a state file.
    CloseOpenSiblingStateFileDialog { load_state: bool, do_not_show_again: bool },
    /// Keep a change in the dialog that offers to load a state file.
    UpdateOpenSiblingStateFileDialog { do_not_show_again: bool },
    /// Close the dialog that offers to reload the file.
    CloseReloadWaveformDialog { reload_file: bool, do_not_show_again: bool },
    /// Keep a change in the dialog that offers to reload the file.
    UpdateReloadWaveformDialog { do_not_show_again: bool },
}

/// A [`Message`] with its texts as sequences of characters.
#[verifier::ext_equal]
pub enum MessageView {
    LoadFile(Seq<char>, LoadOptions),
    AddVariables(Seq<VariableView>),
    AddDecoder(ChoiceView),
    UpdateDecoder(DisplayedItemRef, ChoiceView),
    HideDecoderDialog,
    CloseOpenSiblingStateFileDialog { load_state: bool, do_not_show_again: bool },
    UpdateOpenSiblingStateFileDialog { do_not_show_again: bool },
    CloseReloadWaveformDialog { reload_file: bool, do_not_show_again: bool },
    UpdateReloadWaveformDialog { do_not_show_again: bool },
}

/// The views of a list of variables.
pub open spec fn variable_views(variables: Seq<VariableRef>) -> Seq<VariableView> {
    Seq::new(variables.len(), |i: int| variables[i]@)
}

impl View for Message {
    type V = MessageView;

    open spec fn view(&self) -> MessageView {
        match *self {
            Message::LoadFile(path, options) => MessageView::LoadFile(path@, options),
            Message::AddVariables(variables) => MessageView::AddVariables(
                variable_views(variables@),
            ),
            Message::AddDecoder(choice) => MessageView::AddDecoder(choice@),
            Message::UpdateDecoder(item, choice) => MessageView::UpdateDecoder(item, choice@),
            Message::HideDecoderDialog => MessageView::HideDecoderDialog,
            Message::CloseOpenSiblingStateFileDialog { load_state, do_not_show_again } => {
                MessageView::CloseOpenSiblingStateFileDialog { load_state, do_not_show_again }
            },
            Message::UpdateOpenSiblingStateFileDialog { do_not_show_again } => {
                MessageView::UpdateOpenSiblingStateFileDialog { do_not_show_again }
            },
            Message::CloseReloadWaveformDialog { reload_file, do_not_show_again } => {
                MessageView::CloseReloadWaveformDialog { reload_file, do_not_show_again }
            },
            Message::UpdateReloadWaveformDialog { do_not_show_again } => {
                MessageView::UpdateReloadWaveformDialog { do_not_show_again }
            },
        }
    }
}

/// The views of a list of messages.
pub open spec fn message_views(messages: Seq<Message>) -> Seq<MessageView> {
    Seq::new(messages.len(), |i: int| messages[i]@)
}

} // verus!
