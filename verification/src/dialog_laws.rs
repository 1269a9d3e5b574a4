//! What the decoder dialog shows and gives back.
use vstd::prelude::*;
use crate::decoders::decoder::SignalDecoder;
use crate::decoders::error;
#[allow(unused_imports)]
use crate::decoders::error::ErrorView;
use crate::decoders::input::{InputSpecView, InputView};
use crate::decoders::settings;
use crate::decoders::settings::{FieldView, KindView, OptionView, SettingView};
use crate::decoders::value::ValueFormat;
use crate::dialog;
use crate::dialog::{ControlView, DialogInputView, DialogView, StatusView};
use crate::displayed::{DisplayedItemRef, DisplayedView};
use crate::message::MessageView;

verus! {

/// Whether a listed input is one that a decoder declares.
pub open spec fn shows(listed: DialogInputView, spec: InputSpecView) -> bool {
    &&& listed.role == spec.role
    &&& listed.description == spec.description
    &&& listed.required == spec.required
    &&& listed.filter.len() == 0
}

/// The dialog for a new decoder lists all of its inputs, the optional ones too,
/// with no signal assigned. It begins with the default settings, and shows samples
/// in decimal without an analog waveform.
pub proof fn new_dialogs_list_all_inputs<D: SignalDecoder>(decoder: &D)
    ensures
        ({
            let made = dialog::fresh(decoder);
            &&& made.item is None
            &&& made.decoder == decoder.identifier()
            &&& made.inputs.len() == decoder.needs().len()
            &&& forall|i: int|
                0 <= i < made.inputs.len() ==> shows(
                    #[trigger] made.inputs[i],
                    decoder.needs()[i],
                ) && made.inputs[i].variable is None
            &&& made.settings == settings::declared_defaults(
                decoder.fields(),
                decoder.fields().len(),
            )
            &&& made.show_samples
            &&& made.value_format == ValueFormat::Decimal
            &&& made.analog is None
        }),
{
}

/// Whether an input has a role.
pub open spec fn takes_role(inputs: Seq<InputView>, role: Seq<char>) -> bool {
    exists|i: int| 0 <= i < inputs.len() && (#[trigger] inputs[i]).role == role
}

/// The inputs that an edit dialog lists: those that are required, and those that
/// have a signal.
pub open spec fn worth_listing(specs: Seq<InputSpecView>, inputs: Seq<InputView>) -> Seq<
    InputSpecView,
> {
    specs.filter(|spec: InputSpecView| spec.required || takes_role(inputs, spec.role))
}

/// The signal that is found for a role is that of the first input with the role.
pub proof fn roles_find_the_first(inputs: Seq<InputView>, role: Seq<char>, from: int)
    requires
        0 <= from,
    ensures
        match dialog::assigned(inputs, role, from) {
            Some(variable) => exists|i: int|
                from <= i < inputs.len() && (#[trigger] inputs[i]).role == role
                    && inputs[i].variable == variable && forall|j: int|
                    from <= j < i ==> (#[trigger] inputs[j]).role != role,
            None => forall|i: int| from <= i < inputs.len() ==> (#[trigger] inputs[i]).role != role,
        },
    decreases inputs.len() - from,
{
    if from < inputs.len() {
        roles_find_the_first(inputs, role, from + 1);
        if inputs[from].role == role {
            assert(inputs[from].variable == inputs[from].variable);
        } else if dialog::assigned(inputs, role, from + 1) is Some {
            let variable = dialog::assigned(inputs, role, from + 1).unwrap();
            let i = choose|i: int|
                from + 1 <= i < inputs.len() && (#[trigger] inputs[i]).role == role
                    && inputs[i].variable == variable && forall|j: int|
                    from + 1 <= j < i ==> (#[trigger] inputs[j]).role != role;
            assert(inputs[i].role == role);
            assert forall|j: int| from <= j < i implies (#[trigger] inputs[j]).role != role by {
                if j > from {
                    assert(from + 1 <= j);
                }
            }
        }
    }
}

/// An edit dialog lists the inputs that are required or have a signal, in the
/// order of the decoder, each with the signal that it has.
pub proof fn edit_dialogs_list_what_is_assigned(
    specs: Seq<InputSpecView>,
    inputs: Seq<InputView>,
    n: nat,
)
    requires
        n <= specs.len(),
    ensures
        ({
            let worth = worth_listing(specs.take(n as int), inputs);
            let listed = dialog::edit_listed(specs, inputs, n);
            &&& listed.len() == worth.len()
            &&& forall|i: int|
                0 <= i < listed.len() ==> shows(#[trigger] listed[i], worth[i])
                    && listed[i].variable == dialog::assigned(inputs, worth[i].role, 0)
        }),
    decreases n,
{
    reveal(Seq::filter);
    let taken = specs.take(n as int);
    if n > 0 {
        edit_dialogs_list_what_is_assigned(specs, inputs, (n - 1) as nat);
        assert(taken.drop_last() =~= specs.take(n - 1));
        assert(taken.last() == specs[n - 1]);
        let role = specs[n - 1].role;
        roles_find_the_first(inputs, role, 0);
        assert(dialog::assigned(inputs, role, 0) is Some <==> takes_role(inputs, role));
    }
}

/// An edit dialog shows the decoder as it is displayed.
pub proof fn edit_dialogs_show_the_decoder<D: SignalDecoder>(
    item: DisplayedItemRef,
    displayed: DisplayedView,
    decoder: &D,
)
    ensures
        ({
            let made = dialog::editing(item, displayed, decoder);
            &&& made.item == Some(item)
            &&& made.decoder == displayed.decoder
            &&& made.settings == displayed.settings
            &&& made.show_samples == displayed.show_samples
            &&& made.value_format == displayed.value_format
            &&& made.analog == displayed.analog
            &&& made.inputs == dialog::edit_listed(
                decoder.needs(),
                displayed.inputs,
                decoder.needs().len(),
            )
        }),
{
}

/// The listed inputs that have a signal.
pub open spec fn with_signal(inputs: Seq<DialogInputView>) -> Seq<DialogInputView> {
    inputs.filter(|listed: DialogInputView| listed.variable is Some)
}

/// What a dialog gives back has the inputs that have a signal, in their order,
/// each with its role; those without one are left out.
pub proof fn inputs_with_signals_are_chosen(inputs: Seq<DialogInputView>, n: nat)
    requires
        n <= inputs.len(),
    ensures
        ({
            let assigned = with_signal(inputs.take(n as int));
            let chosen = dialog::chosen_inputs(inputs, n);
            &&& chosen.len() == assigned.len()
            &&& forall|i: int|
                0 <= i < chosen.len() ==> (#[trigger] chosen[i]).role == assigned[i].role && Some(
                    chosen[i].variable,
                ) == assigned[i].variable
        }),
    decreases n,
{
    reveal(Seq::filter);
    let taken = inputs.take(n as int);
    if n > 0 {
        inputs_with_signals_are_chosen(inputs, (n - 1) as nat);
        assert(taken.drop_last() =~= inputs.take(n - 1));
        assert(taken.last() == inputs[n - 1]);
    }
}

/// What a dialog gives back is what it shows.
pub proof fn dialogs_give_back_what_they_show(shown: DialogView)
    ensures
        ({
            let choice = dialog::choice_of(shown);
            &&& choice.decoder == shown.decoder
            &&& choice.inputs == dialog::chosen_inputs(shown.inputs, shown.inputs.len())
            &&& choice.settings == shown.settings
            &&& choice.show_samples == shown.show_samples
            &&& choice.value_format == shown.value_format
            &&& choice.analog == shown.analog
        }),
{
}

/// A fault of the settings comes before anything else; without one a dialog is
/// ready exactly where every required input has a signal.
pub proof fn status_tells_what_is_missing(shown: DialogView, fault: Option<ErrorView>)
    ensures
        match dialog::status_of(shown, fault) {
            StatusView::Invalid(words) => fault is Some && words == error::error_message(
                fault.unwrap(),
            ),
            StatusView::Unassigned => fault is None && exists|i: int|
                0 <= i < shown.inputs.len() && (#[trigger] shown.inputs[i]).required
                    && shown.inputs[i].variable is None,
            StatusView::Ready => fault is None && forall|i: int|
                0 <= i < shown.inputs.len() && (#[trigger] shown.inputs[i]).required
                    ==> shown.inputs[i].variable is Some,
        },
{
}

/// A setting is edited as what it is: a switch, a number within its bounds, or a
/// choice. It begins at what is stored and, where nothing of its type is, off, at
/// the lower bound, or with the first option.
pub proof fn settings_are_edited_as_what_they_are(
    field: FieldView,
    stored: Map<Seq<char>, SettingView>,
)
    ensures
        match (field.kind, dialog::control_of(field, stored)) {
            (KindView::Bool, ControlView::Check { value }) => value <==> settings::holds(
                stored,
                field.key,
                SettingView::Bool(true),
            ),
            (KindView::Integer { min, max }, ControlView::Number { value, min: low, max: high }) => {
                &&& low == min && high == max
                &&& settings::holds(stored, field.key, SettingView::Integer(value)) || (value == min
                    && !(stored.contains_key(field.key) && stored[field.key] is Integer))
            },
            (KindView::Enum { options }, ControlView::Choice { current, label }) => {
                &&& settings::holds(stored, field.key, SettingView::Enum(current)) || (!(
                stored.contains_key(field.key) && stored[field.key] is Enum) && (options.len() > 0
                    ==> current == options[0].value) && (options.len() == 0 ==> current.len() == 0))
                &&& label == dialog::option_label(options, current, 0)
            },
            _ => false,
        },
{
}

/// The label shown for a value is that of the first option with it, and the value
/// itself where there is none.
pub proof fn options_are_shown_by_their_labels(
    options: Seq<OptionView>,
    current: Seq<char>,
    from: int,
)
    requires
        0 <= from,
    ensures
        ({
            let label = dialog::option_label(options, current, from);
            ||| label == current && forall|i: int|
                from <= i < options.len() ==> (#[trigger] options[i]).value != current
            ||| exists|i: int|
                from <= i < options.len() && (#[trigger] options[i]).value == current && label
                    == options[i].label && forall|j: int|
                    from <= j < i ==> (#[trigger] options[j]).value != current
        }),
    decreases options.len() - from,
{
    if from < options.len() {
        options_are_shown_by_their_labels(options, current, from + 1);
        if options[from].value == current {
            assert(options[from].label == options[from].label);
        } else if exists|i: int| from + 1 <= i < options.len() && (#[trigger] options[i]).value
            == current {
            if !(forall|i: int|
                from + 1 <= i < options.len() ==> (#[trigger] options[i]).value != current) {
                let label = dialog::option_label(options, current, from + 1);
                let i = choose|i: int|
                    from + 1 <= i < options.len() && (#[trigger] options[i]).value == current
                        && label == options[i].label && forall|j: int|
                        from + 1 <= j < i ==> (#[trigger] options[j]).value != current;
                assert(options[i].value == current);
                assert forall|j: int| from <= j < i implies (#[trigger] options[j]).value
                    != current by {
                    if j > from {
                        assert(from + 1 <= j);
                    }
                }
            }
        } else {
            assert forall|i: int| from <= i < options.len() implies (#[trigger] options[i]).value
                != current by {
                if i > from {
                    assert(from + 1 <= i);
                }
            }
        }
    }
}

/// Choosing another type of decoder begins anew with its settings and inputs, and
/// keeps how it is displayed; choosing the same one keeps all.
pub proof fn other_types_begin_anew<D: SignalDecoder>(shown: DialogView, decoder: &D)
    ensures
        ({
            let after = dialog::switched(shown, decoder);
            &&& shown.decoder == decoder.identifier() ==> after == shown
            &&& shown.decoder != decoder.identifier() ==> {
                &&& after.decoder == decoder.identifier()
                &&& after.settings == settings::declared_defaults(
                    decoder.fields(),
                    decoder.fields().len(),
                )
                &&& forall|i: int|
                    0 <= i < after.inputs.len() ==> (#[trigger] after.inputs[i]).variable is None
                &&& shown.item is None ==> after.inputs.len() == decoder.needs().len()
            }
            &&& after.item == shown.item
            &&& after.show_samples == shown.show_samples
            &&& after.value_format == shown.value_format
            &&& after.analog == shown.analog
        }),
{
    let needs = decoder.needs();
    edit_dialogs_list_what_is_assigned(needs, Seq::empty(), needs.len());
    assert forall|role: Seq<char>| #[trigger]
        dialog::assigned(Seq::<InputView>::empty(), role, 0) is None by {}
}

/// A name is offered exactly where the filter is part of it; an empty filter
/// offers every name.
pub proof fn filters_find_parts(name: Seq<char>, filter: Seq<char>)
    ensures
        dialog::passes_filter(name, Seq::empty()),
        dialog::passes_filter(name, filter) <==> exists|before: Seq<char>, after: Seq<char>|
            name == #[trigger] (before + filter + after),
{
    if dialog::passes_filter(name, filter) {
        if filter.len() == 0 {
            assert(name =~= name + filter + Seq::<char>::empty());
        } else {
            let at = choose|at: int| crate::text::occurs_at(name, filter, at);
            assert(name =~= name.take(at) + filter + name.skip(at + filter.len() as int)) by {
                assert(name.subrange(at, at + filter.len()) == filter);
                assert forall|i: int| at <= i < at + filter.len() implies #[trigger] name[i]
                    == filter[i - at] by {
                    assert(name.subrange(at, at + filter.len())[i - at] == name[i]);
                }
            }
        }
    }
    if exists|before: Seq<char>, after: Seq<char>| name == #[trigger] (before + filter + after) {
        let (before, after) = choose|before: Seq<char>, after: Seq<char>|
            name == #[trigger] (before + filter + after);
        assert(name.subrange(before.len() as int, (before.len() + filter.len()) as int) =~= filter);
        assert(crate::text::occurs_at(name, filter, before.len() as int));
    }
}

/// Cancelling a dialog or closing it hides it and does nothing else; each of the
/// buttons has its own effect, whatever else was pressed.
pub proof fn leaving_changes_nothing(
    shown: DialogView,
    status: StatusView,
    confirmed: bool,
    cancelled: bool,
    closed: bool,
)
    ensures
        dialog::outcome(shown, status, false, true, false) == seq![MessageView::HideDecoderDialog],
        dialog::outcome(shown, status, false, false, true) == seq![MessageView::HideDecoderDialog],
        dialog::outcome(shown, status, false, false, false).len() == 0,
        dialog::outcome(shown, status, confirmed, cancelled, closed) == dialog::outcome(
            shown,
            status,
            confirmed,
            false,
            false,
        ) + dialog::outcome(shown, status, false, cancelled, false) + dialog::outcome(
            shown,
            status,
            false,
            false,
            closed,
        ),
        !(status is Ready) ==> dialog::outcome(shown, status, true, false, false).len() == 0,
{
    let none = Seq::<MessageView>::empty();
    assert(none + none + none =~= none);
    let hide = seq![MessageView::HideDecoderDialog];
    assert(none + hide + none =~= hide);
    assert(none + none + hide =~= hide);
    let applied = dialog::outcome(shown, status, confirmed, false, false);
    assert(applied + none + none =~= applied);
    assert(dialog::outcome(shown, status, confirmed, cancelled, closed) =~= applied
        + dialog::outcome(shown, status, false, cancelled, false) + dialog::outcome(
        shown,
        status,
        false,
        false,
        closed,
    ));
}

} // verus!
