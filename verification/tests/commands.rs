//! Tests of the commands that add decoders.
use libsurfer::commands::{
    decoder_add, display_change, parse_integer, split_commands, CommandError, DisplayChange,
};
use libsurfer::decoders::decoder::SignalDecoder;
use libsurfer::decoders::registry::{
    all_decoders, decoder_by_id, SPDIF_SCHEMA, TDM_AUDIO_SCHEMA,
};
use libsurfer::decoders::schema::{
    RawInput, RawOption, RawSchema, RawSetting, RawValue, SchemaDecoder,
};
use libsurfer::decoders::settings::SettingValue;
use libsurfer::decoders::value::ValueFormat;
use libsurfer::decoders::settings::DecoderSettings;
use libsurfer::displayed::{
    AnalogRenderStyle, AnalogSettings, AnalogYAxisScale, DisplayedDecoder,
};
use libsurfer::keymap::KeyMap;
use libsurfer::message::DecoderChoice;

fn raw_value(value: &toml::Value) -> RawValue {
    match value {
        toml::Value::Boolean(value) => RawValue::Boolean(*value),
        toml::Value::Integer(value) => RawValue::Integer(*value),
        toml::Value::String(value) => RawValue::Text(value.clone()),
        _ => RawValue::Other,
    }
}

fn text_of(table: &toml::Table, key: &str) -> String {
    table[key].as_str().expect("a string").to_string()
}

fn tables_of<'a>(table: &'a toml::Table, key: &str) -> Vec<&'a toml::Table> {
    table.get(key).map_or_else(Vec::new, |value| {
        value
            .as_array()
            .expect("an array")
            .iter()
            .map(|entry| entry.as_table().expect("a table"))
            .collect()
    })
}

/// The contents of a schema file.
fn raw_schema(text: &str) -> RawSchema {
    let table: toml::Table = text.parse().expect("valid TOML");
    let mut engine_params = KeyMap::new();
    if let Some(params) = table.get("engine_params") {
        for (key, value) in params.as_table().expect("a table") {
            engine_params.insert(key.clone(), raw_value(value));
        }
    }
    RawSchema {
        id: text_of(&table, "id"),
        name: text_of(&table, "name"),
        engine: text_of(&table, "engine"),
        inputs: tables_of(&table, "inputs")
            .into_iter()
            .map(|input| RawInput {
                role: text_of(input, "role"),
                description: text_of(input, "description"),
                required: input
                    .get("required")
                    .is_none_or(|required| required.as_bool().expect("a bool")),
            })
            .collect(),
        settings: tables_of(&table, "settings")
            .into_iter()
            .map(|setting| RawSetting {
                key: text_of(setting, "key"),
                label: text_of(setting, "label"),
                kind: text_of(setting, "type"),
                default: raw_value(&setting["default"]),
                min: setting.get("min").and_then(toml::Value::as_integer),
                max: setting.get("max").and_then(toml::Value::as_integer),
                options: tables_of(setting, "options")
                    .into_iter()
                    .map(|option| RawOption {
                        value: text_of(option, "value"),
                        label: text_of(option, "label"),
                    })
                    .collect(),
            })
            .collect(),
        engine_params,
    }
}

fn bundled() -> Vec<SchemaDecoder> {
    let (decoders, errors) =
        all_decoders(&vec![raw_schema(TDM_AUDIO_SCHEMA), raw_schema(SPDIF_SCHEMA)]);
    assert!(errors.is_empty(), "{errors:?}");
    decoders
}

/// Runs one `decoder_add` command.
fn run(command: &str) -> Result<DecoderChoice, CommandError> {
    let decoders = bundled();
    let commands = split_commands(command);
    assert_eq!(commands.len(), 1);
    assert_eq!(commands[0][0], "decoder_add");
    let decoder = decoder_by_id(&decoders, &commands[0][1]).expect("bundled decoder");
    decoder_add(
        decoder,
        AnalogYAxisScale::TypeLimits,
        &commands[0][2..].to_vec(),
    )
}

#[test]
fn commands_are_separated_by_lines_or_semicolons() {
    assert_eq!(
        split_commands("decoder_add spdif tb.data; variable_add tb.a\n\n# a; b\n zoom_fit \r\n"),
        [
            vec!["decoder_add", "spdif", "tb.data"],
            vec!["variable_add", "tb.a"],
            vec!["zoom_fit"],
        ]
    );
    assert!(split_commands("").is_empty());
    assert!(split_commands(" ;\t;\n#").is_empty());
    assert_eq!(split_commands("a #b"), [vec!["a", "#b"]]);
    assert_eq!(split_commands("a;#b\nc"), [vec!["a"], vec!["c"]]);
}

#[test]
fn documented_commands_are_understood() {
    let choice = run("decoder_add tdm_audio tb.bitclk tb.frame_sync tb.data channels=2 bits=16")
        .expect("all is given");
    assert_eq!(choice.decoder, "tdm_audio");
    let inputs: Vec<(&str, String)> = choice
        .inputs
        .iter()
        .map(|input| (input.role.as_str(), input.variable_ref.full_path_string()))
        .collect();
    assert_eq!(
        inputs,
        [
            ("bitclk", "tb.bitclk".to_string()),
            ("frame_sync", "tb.frame_sync".to_string()),
            ("data", "tb.data".to_string()),
        ]
    );
    assert_eq!(choice.settings.get_integer("bits", 0), 16);
    assert!(choice.show_samples);
    assert_eq!(choice.value_format, ValueFormat::Decimal);
    assert_eq!(choice.analog, None);

    let choice = run("decoder_add spdif tb.data analog=interpolated").expect("all is given");
    assert_eq!(choice.inputs.len(), 1);
    assert_eq!(
        choice.analog,
        Some(AnalogSettings {
            render_style: AnalogRenderStyle::Interpolated,
            y_axis_scale: AnalogYAxisScale::TypeLimits,
        })
    );

    let choice =
        run("decoder_add spdif tb.data tb.bitclk word_bits=24 format=hex").expect("all is given");
    assert_eq!(choice.inputs[1].role, "bitclk");
    assert_eq!(
        choice.settings.get("word_bits"),
        Some(&SettingValue::Enum("24".to_string()))
    );
    assert_eq!(choice.value_format, ValueFormat::Hexadecimal);
}

#[test]
fn settings_and_options_stand_anywhere() {
    let choice = run(
        "decoder_add spdif analog_scale=global signed=false samples=off tb.data analog=step",
    )
    .expect("all is given");
    assert_eq!(choice.inputs[0].variable_ref.full_path_string(), "tb.data");
    assert!(!choice.settings.get_bool("signed", true));
    assert!(!choice.show_samples);
    assert_eq!(
        choice.analog,
        Some(AnalogSettings {
            render_style: AnalogRenderStyle::Step,
            y_axis_scale: AnalogYAxisScale::Global,
        })
    );
    let choice = run("decoder_add spdif tb.data analog=step analog=off").expect("all is given");
    assert_eq!(choice.analog, None);
    let decoders = bundled();
    let decoder = decoder_by_id(&decoders, "spdif").expect("bundled decoder");
    assert_eq!(choice.settings, decoder.default_settings());
}

#[test]
fn unusable_arguments_are_rejected() {
    let fault = |command: &str| run(command).expect_err("not usable").message();
    assert_eq!(
        fault("decoder_add spdif tb.a tb.b tb.c"),
        "no decoder input is left for signal 'tb.c'"
    );
    assert_eq!(
        fault("decoder_add spdif signed=true"),
        "no signal given for decoder input 'data'"
    );
    assert_eq!(
        fault("decoder_add spdif tb.data baud=9600"),
        "unknown decoder setting 'baud'"
    );
    for (key, value) in [
        ("signed", "yes"),
        ("samples", "true"),
        ("format", "octal"),
        ("analog", "on"),
        ("analog_scale", "auto"),
    ] {
        assert_eq!(
            fault(&format!("decoder_add spdif tb.data {key}={value}")),
            format!("invalid value '{value}' for '{key}'")
        );
    }
    assert_eq!(
        fault("decoder_add tdm_audio tb.a tb.b tb.c bits=many"),
        "invalid value 'many' for 'bits'"
    );
    assert!(matches!(
        run("decoder_add tdm_audio tb.a tb.b tb.c bits=65"),
        Err(CommandError::InvalidSettings { .. })
    ));
    assert!(fault("decoder_add spdif tb.data word_bits=17").contains("17"));
}

#[test]
fn integers_are_read() {
    assert_eq!(parse_integer("0"), Some(0));
    assert_eq!(parse_integer("-12"), Some(-12));
    assert_eq!(parse_integer("+007"), Some(7));
    assert_eq!(parse_integer("9223372036854775807"), Some(i64::MAX));
    assert_eq!(parse_integer("-9223372036854775808"), Some(i64::MIN));
    for text in [
        "",
        "-",
        "+",
        "1a",
        "--1",
        " 1",
        "9223372036854775808",
        "-9223372036854775809",
        "99999999999999999999999",
    ] {
        assert_eq!(parse_integer(text), None, "{text}");
    }
}

#[test]
fn display_is_changed() {
    let change = |command: &str| display_change(&split_commands(command)[0]);
    assert_eq!(
        change("item_set_samples off"),
        Some(DisplayChange::Samples(false))
    );
    assert_eq!(
        change("item_set_value_format hex"),
        Some(DisplayChange::Format(ValueFormat::Hexadecimal))
    );
    assert_eq!(change("item_set_analog off"), Some(DisplayChange::Analog(None)));
    for command in [
        "item_set_samples",
        "item_set_samples maybe",
        "item_set_value_format on",
        "item_set_analog dec",
        "item_set_analog step step",
        "zoom_fit now",
    ] {
        assert_eq!(change(command), None, "{command}");
    }

    let mut decoder = DisplayedDecoder {
        decoder: "spdif".to_string(),
        inputs: vec![],
        settings: DecoderSettings::default(),
        display_name: "S/PDIF".to_string(),
        show_samples: true,
        value_format: ValueFormat::Decimal,
        analog: None,
        cache: None,
    };
    for command in [
        "item_set_samples off",
        "item_set_value_format hex",
        "item_set_analog step",
    ] {
        let change = change(command).expect("a change");
        decoder.change_display(change, AnalogYAxisScale::Global);
    }
    assert!(!decoder.show_samples);
    assert_eq!(decoder.value_format, ValueFormat::Hexadecimal);
    let style = change("item_set_analog interpolated").expect("a change");
    decoder.change_display(style, AnalogYAxisScale::Viewport);
    assert_eq!(
        decoder.analog,
        Some(AnalogSettings {
            render_style: AnalogRenderStyle::Interpolated,
            y_axis_scale: AnalogYAxisScale::Global,
        })
    );
    decoder.change_display(DisplayChange::Analog(None), AnalogYAxisScale::Global);
    assert_eq!(decoder.analog, None);
    assert_eq!(decoder.display_name, "S/PDIF");
}
