//! Tests of the dialogs.
use libsurfer::decoders::decoder::SignalDecoder;
use libsurfer::decoders::input::{DecoderInput, VariableRef};
use libsurfer::decoders::registry::{
    all_decoders, decoder_by_id, SPDIF_SCHEMA, TDM_AUDIO_SCHEMA,
};
use libsurfer::decoders::schema::{
    RawInput, RawOption, RawSchema, RawSetting, RawValue, SchemaDecoder,
};
use libsurfer::decoders::settings::{
    DecoderSettings, SettingField, SettingKind, SettingOption, SettingValue,
};
use libsurfer::decoders::value::ValueFormat;
use libsurfer::dialog::{
    field_control, name_passes, DecoderDialog, DialogStatus, FieldControl,
    OpenSiblingStateFileDialog, ReloadWaveformDialog,
};
use libsurfer::displayed::{
    AnalogRenderStyle, AnalogSettings, AnalogYAxisScale, DisplayedDecoder, DisplayedItemRef,
};
use libsurfer::keymap::KeyMap;
use libsurfer::message::Message;

fn raw_value(value: &toml::Value) -> RawValue {
    match value {
        toml::Value::Boolean(value) => RawValue::Boolean(*value),
        toml::Value::Integer(value) => RawValue::Integer(*value),
        toml::Value::String(value) => RawValue::Text(value.clone()),
        _ => RawValue::Other,
    }
}

fn text_of(table: &toml::Table, key: &str) -> String {
    table[key].as_str().expect("a string").to_string()
}

fn tables_of<'a>(table: &'a toml::Table, key: &str) -> Vec<&'a toml::Table> {
    table.get(key).map_or_else(Vec::new, |value| {
        value
            .as_array()
            .expect("an array")
            .iter()
            .map(|entry| entry.as_table().expect("a table"))
            .collect()
    })
}

/// The contents of a schema file.
fn raw_schema(text: &str) -> RawSchema {
    let table: toml::Table = text.parse().expect("valid TOML");
    let mut engine_params = KeyMap::new();
    if let Some(params) = table.get("engine_params") {
        for (key, value) in params.as_table().expect("a table") {
            engine_params.insert(key.clone(), raw_value(value));
        }
    }
    RawSchema {
        id: text_of(&table, "id"),
        name: text_of(&table, "name"),
        engine: text_of(&table, "engine"),
        inputs: tables_of(&table, "inputs")
            .into_iter()
            .map(|input| RawInput {
                role: text_of(input, "role"),
                description: text_of(input, "description"),
                required: input
                    .get("required")
                    .is_none_or(|required| required.as_bool().expect("a bool")),
            })
            .collect(),
        settings: tables_of(&table, "settings")
            .into_iter()
            .map(|setting| RawSetting {
                key: text_of(setting, "key"),
                label: text_of(setting, "label"),
                kind: text_of(setting, "type"),
                default: raw_value(&setting["default"]),
                min: setting.get("min").and_then(toml::Value::as_integer),
                max: setting.get("max").and_then(toml::Value::as_integer),
                options: tables_of(setting, "options")
                    .into_iter()
                    .map(|option| RawOption {
                        value: text_of(option, "value"),
                        label: text_of(option, "label"),
                    })
                    .collect(),
            })
            .collect(),
        engine_params,
    }
}

fn bundled() -> Vec<SchemaDecoder> {
    let (decoders, errors) =
        all_decoders(&vec![raw_schema(TDM_AUDIO_SCHEMA), raw_schema(SPDIF_SCHEMA)]);
    assert!(errors.is_empty(), "{errors:?}");
    decoders
}

fn displayed_with(decoder: &SchemaDecoder, inputs: Vec<DecoderInput>) -> DisplayedDecoder {
    DisplayedDecoder {
        decoder: "spdif".to_string(),
        inputs,
        settings: decoder.default_settings(),
        display_name: decoder.display_name().to_string(),
        show_samples: true,
        value_format: ValueFormat::default(),
        analog: None,
        cache: None,
    }
}

fn variable(name: &str) -> VariableRef {
    VariableRef::from_hierarchy_string(name)
}

#[test]
fn add_dialog_shows_optional_inputs() {
    let decoders = bundled();
    let decoder = decoder_by_id(&decoders, "spdif").expect("bundled spdif decoder");
    let mut dialog = DecoderDialog::new(decoder);

    assert_eq!(dialog.inputs.len(), 2);
    assert_eq!(dialog.inputs[0].role, "data");
    assert!(dialog.inputs[0].required);
    assert_eq!(dialog.inputs[1].role, "bitclk");
    assert!(!dialog.inputs[1].required);

    // An unassigned optional input is simply left out.
    dialog.inputs[0].variable = Some(VariableRef::from_hierarchy_string("tb.data"));
    let inputs = dialog.decoder_inputs().expect("required input assigned");
    assert_eq!(inputs.len(), 1);
    assert_eq!(inputs[0].role, "data");
}

#[test]
fn edit_dialog_shows_assigned_optional_inputs() {
    let decoders = bundled();
    let decoder = decoder_by_id(&decoders, "spdif").expect("bundled spdif decoder");
    let displayed = displayed_with(
        decoder,
        vec![
            DecoderInput {
                role: "data".to_string(),
                variable_ref: VariableRef::from_hierarchy_string("tb.data"),
            },
            DecoderInput {
                role: "bitclk".to_string(),
                variable_ref: VariableRef::from_hierarchy_string("tb.bitclk"),
            },
        ],
    );
    let dialog = DecoderDialog::from_displayed(DisplayedItemRef(1), &displayed, decoder);

    assert_eq!(dialog.inputs.len(), 2);
    assert_eq!(dialog.inputs[1].role, "bitclk");
    assert!(!dialog.inputs[1].required);
}

#[test]
fn edit_dialog_hides_unassigned_optional_inputs() {
    let decoders = bundled();
    let decoder = decoder_by_id(&decoders, "spdif").expect("bundled spdif decoder");
    let displayed = displayed_with(
        decoder,
        vec![DecoderInput {
            role: "data".to_string(),
            variable_ref: VariableRef::from_hierarchy_string("tb.data"),
        }],
    );
    let dialog = DecoderDialog::from_displayed(DisplayedItemRef(1), &displayed, decoder);

    assert_eq!(dialog.inputs.len(), 1);
    assert_eq!(dialog.inputs[0].role, "data");
}

#[test]
fn confirming_adds_the_decoder_once_its_inputs_are_assigned() {
    let decoders = bundled();
    let decoder = decoder_by_id(&decoders, "spdif").expect("bundled spdif decoder");
    let mut dialog = DecoderDialog::new(decoder);
    assert_eq!(dialog.title(), "Add decoder");
    assert_eq!(dialog.confirm_label(), "Add");
    assert_eq!(dialog.type_label(Some(decoder)), "S/PDIF / AES3");
    assert_eq!(dialog.type_label(None::<&SchemaDecoder>), "spdif");

    let status = dialog.status(Some(decoder));
    assert_eq!(status, DialogStatus::Unassigned);
    assert!(dialog.respond(&status, true, false, false).is_empty());
    assert!(dialog
        .respond(&DialogStatus::Ready, true, false, false)
        .is_empty());

    dialog.inputs[0].variable = Some(variable("tb.data"));
    let status = dialog.status(Some(decoder));
    assert_eq!(status, DialogStatus::Ready);
    let messages = dialog.respond(&status, true, false, false);
    assert_eq!(messages.len(), 2);
    match &messages[0] {
        Message::AddDecoder(choice) => {
            assert_eq!(choice.decoder, "spdif");
            assert_eq!(choice.inputs.len(), 1);
            assert_eq!(choice.inputs[0].variable_ref, variable("tb.data"));
            assert_eq!(choice.settings, decoder.default_settings());
            assert!(choice.show_samples);
            assert_eq!(choice.analog, None);
        }
        other => panic!("expected a new decoder, got {other:?}"),
    }
    assert_eq!(messages[1], Message::HideDecoderDialog);

    assert_eq!(
        dialog.respond(&status, false, true, true),
        [Message::HideDecoderDialog, Message::HideDecoderDialog]
    );
    assert!(dialog.respond(&status, false, false, false).is_empty());
}

#[test]
fn invalid_settings_are_reported_first() {
    let decoders = bundled();
    let decoder = decoder_by_id(&decoders, "tdm_audio").expect("bundled decoder");
    let mut dialog = DecoderDialog::new(decoder);
    dialog
        .settings
        .set("bits".to_string(), SettingValue::Integer(65));
    match dialog.status(Some(decoder)) {
        DialogStatus::Invalid(words) => assert!(words.contains("64"), "{words}"),
        other => panic!("expected a fault, got {other:?}"),
    }
    assert_eq!(
        dialog.status(None::<&SchemaDecoder>),
        DialogStatus::Unassigned
    );
}

#[test]
fn nothing_is_applied_while_the_settings_are_invalid() {
    let decoders = bundled();
    let decoder = decoder_by_id(&decoders, "tdm_audio").expect("bundled decoder");
    let mut dialog = DecoderDialog::new(decoder);
    for input in &mut dialog.inputs {
        input.variable = Some(variable("tb.sig"));
    }
    let ready = dialog.status(Some(decoder));
    assert_eq!(ready, DialogStatus::Ready);
    assert_eq!(dialog.respond(&ready, true, false, false).len(), 2);

    dialog
        .settings
        .set("bits".to_string(), SettingValue::Integer(65));
    let invalid = dialog.status(Some(decoder));
    assert!(matches!(invalid, DialogStatus::Invalid(_)));
    assert!(dialog.respond(&invalid, true, false, false).is_empty());
    assert_eq!(
        dialog.respond(&invalid, true, true, false),
        [Message::HideDecoderDialog]
    );
}

#[test]
fn a_dialog_can_be_copied() {
    let decoders = bundled();
    let decoder = decoder_by_id(&decoders, "spdif").expect("bundled spdif decoder");
    let mut dialog = DecoderDialog::new(decoder);
    dialog.inputs[0].variable = Some(variable("tb.data"));
    dialog.inputs[1].filter = "clk".to_string();
    let copy = dialog.clone();
    assert_eq!(copy.decoder, "spdif");
    assert_eq!(copy.inputs.len(), dialog.inputs.len());
    assert_eq!(copy.inputs[0].variable, Some(variable("tb.data")));
    assert_eq!(copy.inputs[1].filter, "clk");
    assert_eq!(copy.settings, dialog.settings);
}

#[test]
fn editing_gives_the_same_decoder_back() {
    let decoders = bundled();
    let decoder = decoder_by_id(&decoders, "spdif").expect("bundled spdif decoder");
    let mut added = DecoderDialog::new(decoder);
    added.inputs[0].variable = Some(variable("tb.data"));
    added.inputs[1].variable = Some(variable("tb.bitclk"));
    let mut displayed = displayed_with(decoder, added.decoder_inputs().expect("assigned"));
    displayed.value_format = ValueFormat::Hexadecimal;

    let dialog = DecoderDialog::from_displayed(DisplayedItemRef(3), &displayed, decoder);
    assert_eq!(dialog.title(), "Decoder settings");
    assert_eq!(dialog.confirm_label(), "Apply");
    let status = dialog.status(Some(decoder));
    match &dialog.respond(&status, true, false, false)[0] {
        Message::UpdateDecoder(item, choice) => {
            assert_eq!(*item, DisplayedItemRef(3));
            assert_eq!(choice.decoder, displayed.decoder);
            assert_eq!(choice.inputs, displayed.inputs);
            assert_eq!(choice.settings, displayed.settings);
            assert_eq!(choice.value_format, ValueFormat::Hexadecimal);
        }
        other => panic!("expected an update, got {other:?}"),
    }
}

#[test]
fn choosing_another_type_starts_over() {
    let decoders = bundled();
    let serial = decoder_by_id(&decoders, "tdm_audio").expect("bundled decoder");
    let biphase = decoder_by_id(&decoders, "spdif").expect("bundled spdif decoder");
    let mut dialog = DecoderDialog::new(serial);
    dialog.inputs[0].variable = Some(variable("tb.bitclk"));
    dialog.select_decoder(serial);
    assert_eq!(dialog.inputs[0].variable, Some(variable("tb.bitclk")));

    dialog.show_samples = false;
    dialog.select_decoder(biphase);
    assert_eq!(dialog.decoder, "spdif");
    assert_eq!(dialog.inputs.len(), 2);
    assert_eq!(dialog.inputs[0].variable, None);
    assert_eq!(dialog.settings, biphase.default_settings());
    assert!(!dialog.show_samples);

    // An edit dialog lists the required inputs only.
    let displayed = displayed_with(serial, vec![]);
    let mut dialog = DecoderDialog::from_displayed(DisplayedItemRef(0), &displayed, serial);
    dialog.decoder = "tdm_audio".to_string();
    dialog.select_decoder(biphase);
    assert_eq!(dialog.inputs.len(), 1);
    assert_eq!(dialog.inputs[0].role, "data");
}

#[test]
fn analog_settings_are_kept_or_defaulted() {
    let decoders = bundled();
    let decoder = decoder_by_id(&decoders, "spdif").expect("bundled spdif decoder");
    let mut dialog = DecoderDialog::new(decoder);
    let defaults = AnalogSettings {
        render_style: AnalogRenderStyle::Step,
        y_axis_scale: AnalogYAxisScale::TypeLimits,
    };
    dialog.select_scale(AnalogYAxisScale::Global);
    assert_eq!(dialog.analog, None);
    dialog.select_style(AnalogRenderStyle::Interpolated, defaults);
    assert_eq!(
        dialog.analog,
        Some(AnalogSettings {
            render_style: AnalogRenderStyle::Interpolated,
            y_axis_scale: AnalogYAxisScale::TypeLimits,
        })
    );
    dialog.select_scale(AnalogYAxisScale::Global);
    dialog.select_style(AnalogRenderStyle::Step, defaults);
    assert_eq!(
        dialog.analog,
        Some(AnalogSettings {
            render_style: AnalogRenderStyle::Step,
            y_axis_scale: AnalogYAxisScale::Global,
        })
    );
}

#[test]
fn inputs_are_labelled_and_filtered() {
    let decoders = bundled();
    let decoder = decoder_by_id(&decoders, "spdif").expect("bundled spdif decoder");
    let mut dialog = DecoderDialog::new(decoder);
    assert!(!dialog.inputs[0].label().ends_with(" (optional)"));
    assert!(dialog.inputs[1].label().ends_with(" (optional)"));
    assert_eq!(dialog.inputs[0].selected_text(), "Select a signal\u{2026}");
    dialog.inputs[0].variable = Some(variable("tb.data"));
    assert_eq!(dialog.inputs[0].selected_text(), "tb.data");

    let input = &mut dialog.inputs[0];
    assert!(input.offers(&variable("TB.Data")));
    input.filter = "b.DA".to_string();
    assert!(input.offers(&variable("TB.Data")));
    assert!(!input.offers(&variable("TB.Clock")));
    input.filter = "\u{c4}".to_string();
    assert!(input.offers(&variable("tb.\u{e4}")));

    assert!(name_passes("tb.data", ""));
    assert!(name_passes("tb.data", "b.d"));
    assert!(!name_passes("tb.data", "B"));
    assert!(!name_passes("a", "ab"));
}

#[test]
fn settings_are_shown_with_their_values() {
    let mut stored = DecoderSettings::default();
    let field = |kind: SettingKind| SettingField {
        key: "key".to_string(),
        label: "Label".to_string(),
        default: SettingValue::Bool(true),
        kind,
    };
    let options = vec![
        SettingOption {
            value: "msb".to_string(),
            label: "MSB first".to_string(),
        },
        SettingOption {
            value: "lsb".to_string(),
            label: "LSB first".to_string(),
        },
    ];
    let check = field(SettingKind::Bool);
    let number = field(SettingKind::Integer { min: 2, max: 8 });
    let choice = field(SettingKind::Enum { options });
    let nothing = field(SettingKind::Enum { options: vec![] });

    assert_eq!(
        field_control(&check, &stored),
        FieldControl::Check { value: false }
    );
    assert_eq!(
        field_control(&number, &stored),
        FieldControl::Number {
            value: 2,
            min: 2,
            max: 8
        }
    );
    assert_eq!(
        field_control(&choice, &stored),
        FieldControl::Choice {
            current: "msb".to_string(),
            label: "MSB first".to_string()
        }
    );
    assert_eq!(
        field_control(&nothing, &stored),
        FieldControl::Choice {
            current: String::new(),
            label: String::new()
        }
    );

    stored.set("key".to_string(), SettingValue::Integer(5));
    assert_eq!(
        field_control(&number, &stored),
        FieldControl::Number {
            value: 5,
            min: 2,
            max: 8
        }
    );
    stored.set("key".to_string(), SettingValue::Enum("lsb".to_string()));
    assert_eq!(
        field_control(&choice, &stored),
        FieldControl::Choice {
            current: "lsb".to_string(),
            label: "LSB first".to_string()
        }
    );
    stored.set("key".to_string(), SettingValue::Enum("mid".to_string()));
    assert_eq!(
        field_control(&choice, &stored),
        FieldControl::Choice {
            current: "mid".to_string(),
            label: "mid".to_string()
        }
    );
}

#[test]
fn questions_are_answered() {
    let dialog = ReloadWaveformDialog::default();
    assert_eq!(dialog.respond(false, false, false), None);
    assert_eq!(
        dialog.respond(true, false, false),
        Some(Message::UpdateReloadWaveformDialog {
            do_not_show_again: true
        })
    );
    assert_eq!(
        dialog.respond(true, true, true),
        Some(Message::CloseReloadWaveformDialog {
            reload_file: true,
            do_not_show_again: true
        })
    );
    assert_eq!(
        dialog.respond(false, false, true),
        Some(Message::CloseReloadWaveformDialog {
            reload_file: false,
            do_not_show_again: false
        })
    );

    let dialog = OpenSiblingStateFileDialog::default();
    assert_eq!(dialog.respond(false, false, false), None);
    assert_eq!(
        dialog.respond(true, false, false),
        Some(Message::UpdateOpenSiblingStateFileDialog {
            do_not_show_again: true
        })
    );
    assert_eq!(
        dialog.respond(false, true, false),
        Some(Message::CloseOpenSiblingStateFileDialog {
            load_state: true,
            do_not_show_again: false
        })
    );
    assert_eq!(
        dialog.respond(true, false, true),
        Some(Message::CloseOpenSiblingStateFileDialog {
            load_state: false,
            do_not_show_again: true
        })
    );
}
