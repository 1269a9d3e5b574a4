//! What the dialogs show and what comes of them.
use vstd::prelude::*;
use crate::decoders::decoder::SignalDecoder;
use crate::decoders::error;
use crate::decoders::error::ErrorView;
use crate::decoders::input;
use crate::decoders::input::{
    DecoderInput, InputSpec, InputSpecView, InputView, VariableRef, VariableView,
};
use crate::decoders::settings;
use crate::decoders::settings::{
    DecoderSettings, FieldView, KindView, OptionView, SettingField, SettingKind, SettingOption,
    SettingView,
};
use crate::decoders::value::ValueFormat;
use crate::displayed::{
    AnalogRenderStyle, AnalogSettings, AnalogYAxisScale, DisplayedDecoder, DisplayedItemRef, DisplayedView,
};
use crate::message;
use crate::message::{ChoiceView, DecoderChoice, Message, MessageView};
use crate::text;

verus! {

/// The dialog that asks for confirmation before a file that changed on disk is
/// loaded again.
#[derive(Debug, Clone, Copy, PartialEq, Eq, Structural)]
pub struct ReloadWaveformDialog {
    /// `true` to persist the setting returned by the dialog.
    pub do_not_show_again: bool,
}

impl Default for ReloadWaveformDialog {
    fn default() -> (dialog: Self)
        ensures
            !dialog.do_not_show_again,
    {
        ReloadWaveformDialog { do_not_show_again: false }
    }
}

/// The dialog that offers to load a state file situated in the same directory
/// as the waveform file.
#[derive(Debug, Clone, Copy, PartialEq, Eq, Structural)]
pub struct OpenSiblingStateFileDialog {
    pub do_not_show_again: bool,
}

impl Default for OpenSiblingStateFileDialog {
    fn default() -> (dialog: Self)
        ensures
            !dialog.do_not_show_again,
    {
        OpenSiblingStateFileDialog { do_not_show_again: false }
    }
}

impl ReloadWaveformDialog {
    /// What comes of the dialog: either button closes it, and a change of the
    /// check box alone is kept. `do_not_show_again` is the check box as it is
    /// now.
    pub fn respond(&self, do_not_show_again: bool, reload: bool, leave: bool) -> (message: Option<
        Message,
    >)
        ensures
            match message {
                Some(sent) => sent@ == (if reload || leave {
                    MessageView::CloseReloadWaveformDialog {
                        reload_file: reload,
                        do_not_show_again,
                    }
                } else {
                    MessageView::UpdateReloadWaveformDialog { do_not_show_again }
                }) && (reload || leave || do_not_show_again != self.do_not_show_again),
                None => !reload && !leave && do_not_show_again == self.do_not_show_again,
            },
    {
        if reload {
            Some(Message::CloseReloadWaveformDialog { reload_file: true, do_not_show_again })
        } else if leave {
            Some(Message::CloseReloadWaveformDialog { reload_file: false, do_not_show_again })
        } else if do_not_show_again != self.do_not_show_again {
            Some(Message::UpdateReloadWaveformDialog { do_not_show_again })
        } else {
            None
        }
    }
}

impl OpenSiblingStateFileDialog {
    /// What comes of the dialog: either button closes it, and a change of the
    /// check box alone is kept. `do_not_show_again` is the check box as it is
    /// now.
    pub fn respond(&self, do_not_show_again: bool, load: bool, dont_load: bool) -> (message: Option<
        Message,
    >)
        ensures
            match message {
                Some(sent) => sent@ == (if load || dont_load {
                    MessageView::CloseOpenSiblingStateFileDialog {
                        load_state: load,
                        do_not_show_again,
                    }
                } else {
                    MessageView::UpdateOpenSiblingStateFileDialog { do_not_show_again }
                }) && (load || dont_load || do_not_show_again != self.do_not_show_again),
                None => !load && !dont_load && do_not_show_again == self.do_not_show_again,
            },
    {
        if load {
            Some(Message::CloseOpenSiblingStateFileDialog { load_state: true, do_not_show_again })
        } else if dont_load {
            Some(
                Message::CloseOpenSiblingStateFileDialog { load_state: false, do_not_show_again },
            )
        } else if do_not_show_again != self.do_not_show_again {
            Some(Message::UpdateOpenSiblingStateFileDialog { do_not_show_again })
        } else {
            None
        }
    }
}

/// One input role in the decoder dialog.
#[derive(Debug)]
pub struct DecoderDialogInput {
    pub role: String,
    pub description: String,
    pub required: bool,
    pub variable: Option<VariableRef>,
    pub filter: String,
}

/// A [`DecoderDialogInput`] with its texts as sequences of characters.
#[verifier::ext_equal]
pub struct DialogInputView {
    pub role: Seq<char>,
    pub description: Seq<char>,
    pub required: bool,
    pub variable: Option<VariableView>,
    pub filter: Seq<char>,
}

impl View for DecoderDialogInput {
    type V = DialogInputView;

    open spec fn view(&self) -> DialogInputView {
        DialogInputView {
            role: self.role@,
            description: self.description@,
            required: self.required,
            variable: match self.variable {
                Some(variable) => Some(variable@),
                None => None,
            },
            filter: self.filter@,
        }
    }
}

impl Clone for DecoderDialogInput {
    fn clone(&self) -> (copy: Self)
        ensures
            copy@ == self@,
    {
        DecoderDialogInput {
            role: self.role.clone(),
            description: self.description.clone(),
            required: self.required,
            variable: match &self.variable {
                Some(variable) => Some(variable.clone()),
                None => None,
            },
            filter: self.filter.clone(),
        }
    }
}

/// The views of a list of dialog inputs.
pub open spec fn dialog_input_views(inputs: Seq<DecoderDialogInput>) -> Seq<DialogInputView> {
    Seq::new(inputs.len(), |i: int| inputs[i]@)
}

/// Transient state for the add/edit decoder dialog.
#[derive(Debug)]
pub struct DecoderDialog {
    /// `None` when adding a new decoder, `Some` when editing an existing item.
    pub item: Option<DisplayedItemRef>,
    pub decoder: String,
    pub inputs: Vec<DecoderDialogInput>,
    pub settings: DecoderSettings,
    pub show_samples: bool,
    pub value_format: ValueFormat,
    pub analog: Option<AnalogSettings>,
}

/// A [`DecoderDialog`] with its texts as sequences of characters.
#[verifier::ext_equal]
pub struct DialogView {
    pub item: Option<DisplayedItemRef>,
    pub decoder: Seq<char>,
    pub inputs: Seq<DialogInputView>,
    pub settings: Map<Seq<char>, SettingView>,
    pub show_samples: bool,
    pub value_format: ValueFormat,
    pub analog: Option<AnalogSettings>,
}

impl View for DecoderDialog {
    type V = DialogView;

    open spec fn view(&self) -> DialogView {
        DialogView {
            item: self.item,
            decoder: self.decoder@,
            inputs: dialog_input_views(self.inputs@),
            settings: self.settings@,
            show_samples: self.show_samples,
            value_format: self.value_format,
            analog: self.analog,
        }
    }
}

impl Clone for DecoderDialog {
    fn clone(&self) -> (copy: Self)
        ensures
            copy@ == self@,
    {
        let inputs = self.inputs.clone();
        assert(dialog_input_views(inputs@) =~= dialog_input_views(self.inputs@));
        DecoderDialog {
            item: self.item,
            decoder: self.decoder.clone(),
            inputs,
            settings: self.settings.clone(),
            show_samples: self.show_samples,
            value_format: self.value_format,
            analog: self.analog,
        }
    }
}

/// An input with a signal assigned to it, or none.
pub open spec fn listed(spec: InputSpecView, variable: Option<VariableView>) -> DialogInputView {
    DialogInputView {
        role: spec.role,
        description: spec.description,
        required: spec.required,
        variable,
        filter: Seq::empty(),
    }
}

/// The variable assigned to a role, by the first input that has it from
/// position `from` on.
pub open spec fn assigned(inputs: Seq<InputView>, role: Seq<char>, from: int) -> Option<VariableView>
    decreases inputs.len() - from,
{
    if from < 0 || from >= inputs.len() {
        None
    } else if inputs[from].role == role {
        Some(inputs[from].variable)
    } else {
        assigned(inputs, role, from + 1)
    }
}

/// All inputs of a decoder, unassigned.
pub open spec fn all_listed(specs: Seq<InputSpecView>) -> Seq<DialogInputView> {
    Seq::new(specs.len(), |i: int| listed(specs[i], None))
}

/// The first `n` inputs of a decoder as an edit dialog lists them: the required
/// ones, and those optional ones that are assigned.
pub open spec fn edit_listed(specs: Seq<InputSpecView>, inputs: Seq<InputView>, n: nat) -> Seq<
    DialogInputView,
>
    decreases n,
{
    if n == 0 {
        Seq::empty()
    } else {
        let rest = edit_listed(specs, inputs, (n - 1) as nat);
        let spec = specs[n - 1];
        let variable = assigned(inputs, spec.role, 0);
        if spec.required || variable is Some {
            rest.push(listed(spec, variable))
        } else {
            rest
        }
    }
}

/// Whether every required input has a signal.
pub open spec fn inputs_assigned(inputs: Seq<DialogInputView>) -> bool {
    forall|i: int|
        0 <= i < inputs.len() && (#[trigger] inputs[i]).required ==> inputs[i].variable is Some
}

/// The first `n` inputs, as far as they are assigned.
pub open spec fn chosen_inputs(inputs: Seq<DialogInputView>, n: nat) -> Seq<InputView>
    decreases n,
{
    if n == 0 {
        Seq::empty()
    } else {
        let rest = chosen_inputs(inputs, (n - 1) as nat);
        match inputs[n - 1].variable {
            Some(variable) => rest.push(InputView { role: inputs[n - 1].role, variable }),
            None => rest,
        }
    }
}

/// The decoder that a dialog describes.
pub open spec fn choice_of(dialog: DialogView) -> ChoiceView {
    ChoiceView {
        decoder: dialog.decoder,
        inputs: chosen_inputs(dialog.inputs, dialog.inputs.len()),
        settings: dialog.settings,
        show_samples: dialog.show_samples,
        value_format: dialog.value_format,
        analog: dialog.analog,
    }
}

fn list_input(spec: &InputSpec, variable: Option<VariableRef>) -> (input: DecoderDialogInput)
    ensures
        input@ == listed(
            spec@,
            match variable {
                Some(variable) => Some(variable@),
                None => None,
            },
        ),
{
    let filter = String::new();
    assert(filter@ =~= Seq::<char>::empty());
    DecoderDialogInput {
        role: spec.role.clone(),
        description: spec.description.clone(),
        required: spec.required,
        variable,
        filter,
    }
}

fn list_all(specs: &Vec<InputSpec>) -> (inputs: Vec<DecoderDialogInput>)
    ensures
        dialog_input_views(inputs@) == all_listed(input::spec_views(specs@)),
{
    let ghost all = all_listed(input::spec_views(specs@));
    let mut inputs: Vec<DecoderDialogInput> = Vec::new();
    let mut i: usize = 0;
    while i < specs.len()
        invariant
            all == all_listed(input::spec_views(specs@)),
            i <= specs.len(),
            dialog_input_views(inputs@) =~= all.take(i as int),
        decreases specs.len() - i,
    {
        let ghost before = dialog_input_views(inputs@);
        let input = list_input(&specs[i], None);
        let ghost view = input@;
        inputs.push(input);
        proof {
            assert(all[i as int] == view);
            assert(dialog_input_views(inputs@) =~= before.push(view));
        }
        i += 1;
    }
    assert(all.take(i as int) =~= all);
    inputs
}

fn find_assigned(inputs: &Vec<DecoderInput>, role: &str) -> (variable: Option<VariableRef>)
    ensures
        match (variable, assigned(input::input_views(inputs@), role@, 0)) {
            (Some(found), Some(view)) => found@ == view,
            (None, None) => true,
            _ => false,
        },
{
    let ghost all = input::input_views(inputs@);
    let mut i: usize = 0;
    while i < inputs.len()
        invariant
            all == input::input_views(inputs@),
            i <= inputs.len(),
            assigned(all, role@, 0) == assigned(all, role@, i as int),
        decreases inputs.len() - i,
    {
        assert(all[i as int] == inputs@[i as int]@);
        if text::same_text(inputs[i].role.as_str(), role) {
            return Some(inputs[i].variable_ref.clone());
        }
        i += 1;
    }
    None
}

fn list_for_edit(specs: &Vec<InputSpec>, assigned_inputs: &Vec<DecoderInput>) -> (inputs: Vec<
    DecoderDialogInput,
>)
    ensures
        dialog_input_views(inputs@) == edit_listed(
            input::spec_views(specs@),
            input::input_views(assigned_inputs@),
            specs@.len(),
        ),
{
    let ghost all = input::spec_views(specs@);
    let ghost given = input::input_views(assigned_inputs@);
    let mut inputs: Vec<DecoderDialogInput> = Vec::new();
    let mut i: usize = 0;
    assert(dialog_input_views(inputs@) =~= edit_listed(all, given, 0));
    while i < specs.len()
        invariant
            all == input::spec_views(specs@),
            given == input::input_views(assigned_inputs@),
            i <= specs.len(),
            dialog_input_views(inputs@) == edit_listed(all, given, i as nat),
        decreases specs.len() - i,
    {
        let ghost before = dialog_input_views(inputs@);
        assert(all[i as int] == specs@[i as int]@);
        let variable = find_assigned(assigned_inputs, specs[i].role.as_str());
        if specs[i].required || variable.is_some() {
            let input = list_input(&specs[i], variable);
            let ghost view = input@;
            inputs.push(input);
            assert(dialog_input_views(inputs@) =~= before.push(view));
        }
        i += 1;
    }
    inputs
}

/// What the dialog says of its present state.
#[derive(Debug, PartialEq)]
pub enum DialogStatus {
    /// The settings are not valid.
    Invalid(String),
    /// A required input has no signal.
    Unassigned,
    /// The decoder can be added or changed.
    Ready,
}

/// A dialog's status, with its text as a sequence of characters.
#[verifier::ext_equal]
pub enum StatusView {
    Invalid(Seq<char>),
    Unassigned,
    Ready,
}

impl View for DialogStatus {
    type V = StatusView;

    open spec fn view(&self) -> StatusView {
        match *self {
            DialogStatus::Invalid(words) => StatusView::Invalid(words@),
            DialogStatus::Unassigned => StatusView::Unassigned,
            DialogStatus::Ready => StatusView::Ready,
        }
    }
}

/// The status of a dialog whose settings have a fault, or none.
pub open spec fn status_of(dialog: DialogView, fault: Option<ErrorView>) -> StatusView {
    match fault {
        Some(fault) => StatusView::Invalid(error::error_message(fault)),
        None => if inputs_assigned(dialog.inputs) {
            StatusView::Ready
        } else {
            StatusView::Unassigned
        },
    }
}

/// What comes of a dialog: the decoder it describes, if it was confirmed while
/// its status was ready and every required input has a signal, and the end of
/// the dialog for each way in which it was left.
pub open spec fn outcome(
    dialog: DialogView,
    status: StatusView,
    confirmed: bool,
    cancelled: bool,
    closed: bool,
) -> Seq<MessageView> {
    let applied = if confirmed && status is Ready && inputs_assigned(dialog.inputs) {
        seq![
            match dialog.item {
                Some(item) => MessageView::UpdateDecoder(item, choice_of(dialog)),
                None => MessageView::AddDecoder(choice_of(dialog)),
            },
            MessageView::HideDecoderDialog,
        ]
    } else {
        Seq::empty()
    };
    let left = if cancelled {
        seq![MessageView::HideDecoderDialog]
    } else {
        Seq::empty()
    };
    let gone = if closed {
        seq![MessageView::HideDecoderDialog]
    } else {
        Seq::empty()
    };
    applied + left + gone
}

/// Confirming a dialog applies its decoder if and only if the settings have no
/// fault and every required input has a signal.
pub proof fn only_sound_dialogs_are_applied(dialog: DialogView, fault: Option<ErrorView>)
    ensures
        outcome(dialog, status_of(dialog, fault), true, false, false) == (if fault is None
            && inputs_assigned(dialog.inputs) {
            seq![
                match dialog.item {
                    Some(item) => MessageView::UpdateDecoder(item, choice_of(dialog)),
                    None => MessageView::AddDecoder(choice_of(dialog)),
                },
                MessageView::HideDecoderDialog,
            ]
        } else {
            Seq::<MessageView>::empty()
        }),
{
}

/// A new dialog for adding a decoder.
pub open spec fn fresh<D: SignalDecoder>(decoder: &D) -> DialogView {
    DialogView {
        item: None,
        decoder: decoder.identifier(),
        inputs: all_listed(decoder.needs()),
        settings: settings::declared_defaults(decoder.fields(), decoder.fields().len()),
        show_samples: true,
        value_format: ValueFormat::Decimal,
        analog: None,
    }
}

/// A dialog after a type of decoder has been chosen.
pub open spec fn switched<D: SignalDecoder>(dialog: DialogView, decoder: &D) -> DialogView {
    if dialog.decoder == decoder.identifier() {
        dialog
    } else {
        DialogView {
            decoder: decoder.identifier(),
            inputs: if dialog.item is None {
                all_listed(decoder.needs())
            } else {
                edit_listed(decoder.needs(), Seq::empty(), decoder.needs().len())
            },
            settings: settings::declared_defaults(decoder.fields(), decoder.fields().len()),
            ..dialog
        }
    }
}

/// A dialog for changing a decoder that is displayed.
pub open spec fn editing<D: SignalDecoder>(
    item: DisplayedItemRef,
    displayed: DisplayedView,
    decoder: &D,
) -> DialogView {
    DialogView {
        item: Some(item),
        decoder: displayed.decoder,
        inputs: edit_listed(decoder.needs(), displayed.inputs, decoder.needs().len()),
        settings: displayed.settings,
        show_samples: displayed.show_samples,
        value_format: displayed.value_format,
        analog: displayed.analog,
    }
}

impl DecoderDialog {
    /// The dialog for adding a decoder.
    ///
    /// Optional inputs are listed too, so they can be assigned while adding;
    /// [`DecoderDialog::decoder_inputs`] drops the ones left unassigned.
    pub fn new<D: SignalDecoder>(decoder: &D) -> (dialog: Self)
        ensures
            dialog@ == fresh(decoder),
    {
        DecoderDialog {
            item: None,
            decoder: decoder.id().to_owned(),
            inputs: list_all(decoder.inputs()),
            settings: decoder.default_settings(),
            show_samples: true,
            value_format: ValueFormat::default(),
            analog: None,
        }
    }

    /// The dialog for changing a decoder that is displayed.
    pub fn from_displayed<D: SignalDecoder>(
        item: DisplayedItemRef,
        displayed: &DisplayedDecoder,
        decoder: &D,
    ) -> (dialog: Self)
        ensures
            dialog@ == editing(item, displayed@, decoder),
    {
        DecoderDialog {
            item: Some(item),
            decoder: displayed.decoder.clone(),
            inputs: list_for_edit(decoder.inputs(), &displayed.inputs),
            settings: displayed.settings.clone(),
            show_samples: displayed.show_samples,
            value_format: displayed.value_format,
            analog: displayed.analog,
        }
    }

    fn is_assigned(&self) -> (assigned: bool)
        ensures
            assigned == inputs_assigned(self@.inputs),
    {
        let mut i: usize = 0;
        while i < self.inputs.len()
            invariant
                i <= self.inputs.len(),
                forall|k: int|
                    0 <= k < i && (#[trigger] self@.inputs[k]).required
                        ==> self@.inputs[k].variable is Some,
            decreases self.inputs.len() - i,
        {
            assert(self@.inputs[i as int] == self.inputs@[i as int]@);
            if self.inputs[i].required && self.inputs[i].variable.is_none() {
                return false;
            }
            i += 1;
        }
        true
    }

    /// The inputs that are assigned, unless a required one is not.
    pub fn decoder_inputs(&self) -> (inputs: Option<Vec<DecoderInput>>)
        ensures
            match inputs {
                Some(chosen) => inputs_assigned(self@.inputs) && input::input_views(chosen@)
                    == chosen_inputs(self@.inputs, self@.inputs.len()),
                None => !inputs_assigned(self@.inputs),
            },
    {
        if !self.is_assigned() {
            return None;
        }
        let mut chosen: Vec<DecoderInput> = Vec::new();
        let mut i: usize = 0;
        assert(input::input_views(chosen@) =~= chosen_inputs(self@.inputs, 0));
        while i < self.inputs.len()
            invariant
                i <= self.inputs.len(),
                input::input_views(chosen@) == chosen_inputs(self@.inputs, i as nat),
            decreases self.inputs.len() - i,
        {
            let ghost before = input::input_views(chosen@);
            assert(self@.inputs[i as int] == self.inputs@[i as int]@);
            if let Some(variable) = &self.inputs[i].variable {
                let input = DecoderInput {
                    role: self.inputs[i].role.clone(),
                    variable_ref: variable.clone(),
                };
                let ghost view = input@;
                chosen.push(input);
                assert(input::input_views(chosen@) =~= before.push(view));
            }
            i += 1;
        }
        Some(chosen)
    }

    /// Choose the type of decoder. Another type than before brings its own
    /// settings and inputs, with nothing assigned: all of them while adding,
    /// and the required ones while editing.
    pub fn select_decoder<D: SignalDecoder>(&mut self, decoder: &D)
        ensures
            final(self)@ == switched(old(self)@, decoder),
    {
        if text::same_text(self.decoder.as_str(), decoder.id()) {
            return;
        }
        self.decoder = decoder.id().to_owned();
        self.settings = decoder.default_settings();
        if self.item.is_none() {
            self.inputs = list_all(decoder.inputs());
        } else {
            let none: Vec<DecoderInput> = Vec::new();
            assert(input::input_views(none@) =~= Seq::<InputView>::empty());
            self.inputs = list_for_edit(decoder.inputs(), &none);
        }
    }

    /// Draw the rows as analog waveforms in the given style. What has not been
    /// chosen before is taken from `defaults`.
    pub fn select_style(&mut self, style: AnalogRenderStyle, defaults: AnalogSettings)
        ensures
            final(self)@ == (DialogView {
                analog: Some(
                    AnalogSettings {
                        render_style: style,
                        y_axis_scale: match old(self)@.analog {
                            Some(analog) => analog.y_axis_scale,
                            None => defaults.y_axis_scale,
                        },
                    },
                ),
                ..old(self)@
            }),
    {
        let scale = match self.analog {
            Some(analog) => analog.y_axis_scale,
            None => defaults.y_axis_scale,
        };
        self.analog = Some(AnalogSettings { render_style: style, y_axis_scale: scale });
    }

    /// Scale the analog waveforms, if there are any.
    pub fn select_scale(&mut self, scale: AnalogYAxisScale)
        ensures
            final(self)@ == (DialogView {
                analog: match old(self)@.analog {
                    Some(analog) => Some(AnalogSettings { y_axis_scale: scale, ..analog }),
                    None => None,
                },
                ..old(self)@
            }),
    {
        if let Some(analog) = self.analog {
            self.analog = Some(
                AnalogSettings { render_style: analog.render_style, y_axis_scale: scale },
            );
        }
    }

    /// What the dialog says of its present state. `decoder` is the decoder of
    /// the chosen type, if there is one.
    pub fn status<D: SignalDecoder>(&self, decoder: Option<&D>) -> (status: DialogStatus)
        ensures
            status@ == status_of(
                self@,
                match decoder {
                    Some(decoder) => decoder.settings_fault(self@.settings),
                    None => None,
                },
            ),
    {
        if let Some(decoder) = decoder {
            if let Err(error) = decoder.validate_settings(&self.settings) {
                return DialogStatus::Invalid(error.message());
            }
        }
        if self.is_assigned() {
            DialogStatus::Ready
        } else {
            DialogStatus::Unassigned
        }
    }

    /// What comes of the dialog. Nothing is applied unless `status`, which is
    /// what the dialog says of its present state, is ready.
    pub fn respond(
        &self,
        status: &DialogStatus,
        confirmed: bool,
        cancelled: bool,
        closed: bool,
    ) -> (messages: Vec<Message>)
        ensures
            message::message_views(messages@) == outcome(
                self@,
                status@,
                confirmed,
                cancelled,
                closed,
            ),
    {
        let mut messages: Vec<Message> = Vec::new();
        let ready = match status {
            DialogStatus::Ready => true,
            DialogStatus::Invalid(_) | DialogStatus::Unassigned => false,
        };
        if confirmed && ready {
            if let Some(inputs) = self.decoder_inputs() {
                let choice = DecoderChoice {
                    decoder: self.decoder.clone(),
                    inputs,
                    settings: self.settings.clone(),
                    show_samples: self.show_samples,
                    value_format: self.value_format,
                    analog: self.analog,
                };
                assert(choice@ =~= choice_of(self@));
                messages.push(
                    match self.item {
                        Some(item) => Message::UpdateDecoder(item, choice),
                        None => Message::AddDecoder(choice),
                    },
                );
                messages.push(Message::HideDecoderDialog);
            }
        }
        let ghost applied = outcome(self@, status@, confirmed, false, false);
        assert(message::message_views(messages@) =~= applied);
        if cancelled {
            messages.push(Message::HideDecoderDialog);
        }
        let ghost left = outcome(self@, status@, confirmed, cancelled, false);
        assert(message::message_views(messages@) =~= left);
        if closed {
            messages.push(Message::HideDecoderDialog);
        }
        assert(message::message_views(messages@) =~= outcome(
            self@,
            status@,
            confirmed,
            cancelled,
            closed,
        ));
        messages
    }

    /// The title of the dialog.
    pub fn title(&self) -> (title: &'static str)
        ensures
            title@ == (if self@.item is Some {
                "Decoder settings"@
            } else {
                "Add decoder"@
            }),
    {
        if self.item.is_some() {
            "Decoder settings"
        } else {
            "Add decoder"
        }
    }

    /// The label of the button that confirms the dialog.
    pub fn confirm_label(&self) -> (label: &'static str)
        ensures
            label@ == (if self@.item is Some {
                "Apply"@
            } else {
                "Add"@
            }),
    {
        if self.item.is_some() {
            "Apply"
        } else {
            "Add"
        }
    }

    /// The name shown for the chosen type: that of its decoder, or the
    /// identifier if there is none.
    pub fn type_label<D: SignalDecoder>(&self, decoder: Option<&D>) -> (label: String)
        ensures
            label@ == (match decoder {
                Some(decoder) => decoder.title(),
                None => self@.decoder,
            }),
    {
        match decoder {
            Some(decoder) => decoder.display_name().to_owned(),
            None => self.decoder.clone(),
        }
    }
}

/// Choosing another type while adding is starting over: the dialog lists what a
/// new one for that type would, with the same settings.
pub proof fn switching_is_starting_over<D: SignalDecoder>(dialog: DialogView, decoder: &D)
    requires
        dialog.item is None,
        dialog.decoder != decoder.identifier(),
    ensures
        switched(dialog, decoder) == (DialogView {
            show_samples: dialog.show_samples,
            value_format: dialog.value_format,
            analog: dialog.analog,
            ..fresh(decoder)
        }),
{
}

/// What is shown to edit a setting.
#[allow(inconsistent_fields)]
#[derive(Debug, PartialEq)]
pub enum FieldControl {
    /// A check box.
    Check { value: bool },
    /// A number with its bounds.
    Number { value: i64, min: i64, max: i64 },
    /// A choice of options: the current value, and the label shown for it.
    Choice { current: String, label: String },
}

/// A [`FieldControl`] with its texts as sequences of characters.
#[allow(inconsistent_fields)]
#[verifier::ext_equal]
pub enum ControlView {
    Check { value: bool },
    Number { value: i64, min: i64, max: i64 },
    Choice { current: Seq<char>, label: Seq<char> },
}

impl View for FieldControl {
    type V = ControlView;

    open spec fn view(&self) -> ControlView {
        match *self {
            FieldControl::Check { value } => ControlView::Check { value },
            FieldControl::Number { value, min, max } => ControlView::Number { value, min, max },
            FieldControl::Choice { current, label } => ControlView::Choice {
                current: current@,
                label: label@,
            },
        }
    }
}

/// The label of the first option with a value, from position `from` on, or the
/// value itself.
pub open spec fn option_label(options: Seq<OptionView>, value: Seq<char>, from: int) -> Seq<char>
    decreases options.len() - from,
{
    if from < 0 || from >= options.len() {
        value
    } else if options[from].value == value {
        options[from].label
    } else {
        option_label(options, value, from + 1)
    }
}

/// What is shown to edit a setting. A setting without a value of its type is
/// shown as unchecked, as the smallest number, or as the first option.
pub open spec fn control_of(field: FieldView, stored: Map<Seq<char>, SettingView>) -> ControlView {
    match field.kind {
        KindView::Bool => ControlView::Check {
            value: settings::bool_in(stored, field.key, false),
        },
        KindView::Integer { min, max } => ControlView::Number {
            value: settings::integer_in(stored, field.key, min),
            min,
            max,
        },
        KindView::Enum { options } => {
            let first = if options.len() > 0 {
                options[0].value
            } else {
                Seq::empty()
            };
            let current = settings::enum_or(stored, field.key, first);
            ControlView::Choice { current, label: option_label(options, current, 0) }
        },
    }
}

fn label_of(options: &Vec<SettingOption>, value: &String) -> (label: String)
    ensures
        label@ == option_label(settings::option_views(options@), value@, 0),
{
    let ghost all = settings::option_views(options@);
    let mut i: usize = 0;
    while i < options.len()
        invariant
            all == settings::option_views(options@),
            i <= options.len(),
            option_label(all, value@, 0) == option_label(all, value@, i as int),
        decreases options.len() - i,
    {
        assert(all[i as int] == options@[i as int]@);
        if options[i].value == *value {
            return options[i].label.clone();
        }
        i += 1;
    }
    value.clone()
}

/// What is shown to edit a setting.
pub fn field_control(field: &SettingField, stored: &DecoderSettings) -> (control: FieldControl)
    ensures
        control@ == control_of(field@, stored@),
{
    match &field.kind {
        SettingKind::Bool => FieldControl::Check {
            value: stored.get_bool(field.key.as_str(), false),
        },
        SettingKind::Integer { min, max } => FieldControl::Number {
            value: stored.get_integer(field.key.as_str(), *min),
            min: *min,
            max: *max,
        },
        SettingKind::Enum { options } => {
            let current = if options.len() > 0 {
                stored.get_enum(field.key.as_str(), options[0].value.as_str())
            } else {
                let empty = String::new();
                assert(empty@ =~= Seq::<char>::empty());
                stored.get_enum(field.key.as_str(), empty.as_str())
            };
            let label = label_of(options, &current);
            FieldControl::Choice { current, label }
        },
    }
}

impl DecoderDialogInput {
    /// The label of the input.
    pub fn label(&self) -> (label: String)
        ensures
            label@ == (if self@.required {
                self@.description
            } else {
                self@.description + " (optional)"@
            }),
    {
        let mut label = self.description.clone();
        if !self.required {
            label.append(" (optional)");
        }
        label
    }

    /// The text shown for the assigned signal.
    pub fn selected_text(&self) -> (shown: String)
        ensures
            shown@ == (match self@.variable {
                Some(variable) => input::full_path(variable),
                None => "Select a signal\u{2026}"@,
            }),
    {
        match &self.variable {
            Some(variable) => variable.full_path_string(),
            None => "Select a signal\u{2026}".to_owned(),
        }
    }

    /// Whether `variable` is offered while the filter is set.
    pub fn offers(&self, variable: &VariableRef) -> (offered: bool)
        ensures
            offered == passes_filter(
                lowercase_of(input::full_path(variable@)),
                lowercase_of(self@.filter),
            ),
    {
        let name = lowercase(variable.full_path_string().as_str());
        let filter = lowercase(self.filter.as_str());
        name_passes(name.as_str(), filter.as_str())
    }
}

/// The text in lower case, as `str::to_lowercase` gives it.
pub uninterp spec fn lowercase_of(text: Seq<char>) -> Seq<char>;

/// `str::to_lowercase` of std. Its result depends on the text alone.
#[verifier::external_body]
fn lowercase(text: &str) -> (lower: String)
    ensures
        lower@ == lowercase_of(text@),
{
    text.to_lowercase()
}

/// Whether a name contains the filter, which an empty one always allows.
pub open spec fn passes_filter(name: Seq<char>, filter: Seq<char>) -> bool {
    filter.len() == 0 || exists|at: int| text::occurs_at(name, filter, at)
}

/// Whether `name` contains the filter.
pub fn name_passes(name: &str, filter: &str) -> (passes: bool)
    ensures
        passes == passes_filter(name@, filter@),
{
    filter.is_empty() || text::contains_text(name, filter)
}

proof fn chosen_come_from(inputs: Seq<DialogInputView>, n: nat, p: int) -> (i: int)
    requires
        n <= inputs.len(),
        0 <= p < chosen_inputs(inputs, n).len(),
    ensures
        0 <= i < n,
        inputs[i].variable == Some(chosen_inputs(inputs, n)[p].variable),
        inputs[i].role == chosen_inputs(inputs, n)[p].role,
    decreases n,
{
    let rest = chosen_inputs(inputs, (n - 1) as nat);
    if p < rest.len() {
        chosen_come_from(inputs, (n - 1) as nat, p)
    } else {
        n - 1
    }
}

proof fn assigned_is_chosen(inputs: Seq<DialogInputView>, n: nat, i: int) -> (p: int)
    requires
        n <= inputs.len(),
        0 <= i < n,
        inputs[i].variable is Some,
    ensures
        0 <= p < chosen_inputs(inputs, n).len(),
        chosen_inputs(inputs, n)[p] == (InputView {
            role: inputs[i].role,
            variable: inputs[i].variable.unwrap(),
        }),
    decreases n,
{
    let rest = chosen_inputs(inputs, (n - 1) as nat);
    if i == n - 1 {
        rest.len() as int
    } else {
        assigned_is_chosen(inputs, (n - 1) as nat, i)
    }
}

proof fn assigned_finds(inputs: Seq<InputView>, role: Seq<char>, from: int, p: int)
    requires
        0 <= from <= p < inputs.len(),
        inputs[p].role == role,
        forall|q: int|
            0 <= q < inputs.len() && (#[trigger] inputs[q]).role == role ==> inputs[q].variable
                == inputs[p].variable,
    ensures
        assigned(inputs, role, from) == Some(inputs[p].variable),
    decreases p - from,
{
    if from < p && inputs[from].role != role {
        assigned_finds(inputs, role, from + 1, p);
    }
}

proof fn assigned_finds_none(inputs: Seq<InputView>, role: Seq<char>, from: int)
    requires
        0 <= from,
        forall|q: int| 0 <= q < inputs.len() ==> (#[trigger] inputs[q]).role != role,
    ensures
        assigned(inputs, role, from) is None,
    decreases inputs.len() - from,
{
    if from < inputs.len() {
        assigned_finds_none(inputs, role, from + 1);
    }
}

/// Whether a dialog lists the inputs of a decoder, in their order, and no two
/// of them have one role.
pub open spec fn lists(inputs: Seq<DialogInputView>, specs: Seq<InputSpecView>) -> bool {
    &&& inputs.len() == specs.len()
    &&& forall|i: int| 0 <= i < specs.len() ==> (#[trigger] inputs[i]).role == specs[i].role
    &&& forall|i: int, j: int|
        0 <= i < j < specs.len() ==> (#[trigger] specs[i]).role != (#[trigger] specs[j]).role
}

proof fn chosen_is_assigned(inputs: Seq<DialogInputView>, specs: Seq<InputSpecView>, i: int)
    requires
        lists(inputs, specs),
        0 <= i < specs.len(),
    ensures
        assigned(chosen_inputs(inputs, inputs.len()), specs[i].role, 0) == inputs[i].variable,
{
    let chosen = chosen_inputs(inputs, inputs.len());
    let role = specs[i].role;
    assert(inputs[i].role == role);
    assert forall|q: int| 0 <= q < chosen.len() && (#[trigger] chosen[q]).role == role implies Some(
        chosen[q].variable,
    ) == inputs[i].variable by {
        let j = chosen_come_from(inputs, inputs.len(), q);
        assert(inputs[j].role == specs[j].role);
        if j < i {
            assert(specs[j].role != specs[i].role);
        } else if i < j {
            assert(specs[i].role != specs[j].role);
        }
    }
    if inputs[i].variable is Some {
        let p = assigned_is_chosen(inputs, inputs.len(), i);
        assigned_finds(chosen, role, 0, p);
    } else {
        assert forall|q: int| 0 <= q < chosen.len() implies (#[trigger] chosen[q]).role != role by {
            if chosen[q].role == role {
                assert(Some(chosen[q].variable) == inputs[i].variable);
            }
        }
        assigned_finds_none(chosen, role, 0);
    }
}

proof fn chosen_of_prefix(a: Seq<DialogInputView>, b: Seq<DialogInputView>, n: nat)
    requires
        n <= a.len(),
        n <= b.len(),
        forall|i: int| 0 <= i < n ==> a[i] == b[i],
    ensures
        chosen_inputs(a, n) == chosen_inputs(b, n),
    decreases n,
{
    if n > 0 {
        chosen_of_prefix(a, b, (n - 1) as nat);
        assert(a[n - 1] == b[n - 1]);
    }
}

proof fn edit_lists_chosen(inputs: Seq<DialogInputView>, specs: Seq<InputSpecView>, n: nat)
    requires
        lists(inputs, specs),
        n <= specs.len(),
    ensures
        ({
            let shown = edit_listed(specs, chosen_inputs(inputs, inputs.len()), n);
            chosen_inputs(shown, shown.len()) == chosen_inputs(inputs, n)
        }),
    decreases n,
{
    if n > 0 {
        edit_lists_chosen(inputs, specs, (n - 1) as nat);
        chosen_is_assigned(inputs, specs, n - 1);
        assert(inputs[n - 1].role == specs[n - 1].role);
        let chosen = chosen_inputs(inputs, inputs.len());
        let before = edit_listed(specs, chosen, (n - 1) as nat);
        let shown = edit_listed(specs, chosen, n);
        if shown.len() > before.len() {
            chosen_of_prefix(before, shown, before.len());
        }
    }
}

/// Opening the dialog for a decoder and confirming it changes nothing: the edit
/// dialog shows the inputs that were chosen when the decoder was added, also the
/// optional ones, and gives the same ones back.
pub proof fn editing_keeps_decoder<D: SignalDecoder>(
    added: DialogView,
    item: DisplayedItemRef,
    displayed: DisplayedView,
    decoder: &D,
)
    requires
        lists(added.inputs, decoder.needs()),
        displayed.decoder == added.decoder,
        displayed.inputs == choice_of(added).inputs,
        displayed.settings == added.settings,
        displayed.show_samples == added.show_samples,
        displayed.value_format == added.value_format,
        displayed.analog == added.analog,
    ensures
        choice_of(editing(item, displayed, decoder)) == choice_of(added),
{
    edit_lists_chosen(added.inputs, decoder.needs(), decoder.needs().len());
}

} // verus!
