//! Tests of decoded values, settings, schemas, and the decoders they define.
use std::sync::Arc;

use libsurfer::decoders::cache::{cache_key, DecoderCacheEntry};
use libsurfer::decoders::decoder::SignalDecoder;
use libsurfer::decoders::engines::{all_engines, engine_by_id, DecoderEngine, Engine};
use libsurfer::decoders::error::DecoderError;
use libsurfer::decoders::input::{
    bit_of, check_single_bit, resolve_inputs, Bit, DecoderContext, DecoderInput, LoadedSignal,
    SignalAccessor, SignalId, VariableRef, VariableValue, WaveContainer, WaveVariable,
};
use libsurfer::decoders::registry::{
    all_decoders, decoder_by_id, is_schema_file, SPDIF_SCHEMA, TDM_AUDIO_SCHEMA,
};
use libsurfer::decoders::schema::{
    DecoderSchema, ParamSource, RawInput, RawOption, RawSchema, RawSetting, RawValue,
    SchemaDecoder,
};
use libsurfer::decoders::settings::{
    DecoderSettings, SettingField, SettingKind, SettingOption, SettingValue, SettingsSchema,
};
use libsurfer::decoders::value::{
    BitOrder, DecodedData, DecodedValue, Edge, ValueFormat, ValueKind,
};
use libsurfer::keymap::KeyMap;

fn raw_value(value: &toml::Value) -> RawValue {
    match value {
        toml::Value::Boolean(value) => RawValue::Boolean(*value),
        toml::Value::Integer(value) => RawValue::Integer(*value),
        toml::Value::String(value) => RawValue::Text(value.clone()),
        _ => RawValue::Other,
    }
}

fn text_of(table: &toml::Table, key: &str) -> String {
    table[key].as_str().expect("a string").to_string()
}

fn tables_of<'a>(table: &'a toml::Table, key: &str) -> Vec<&'a toml::Table> {
    table.get(key).map_or_else(Vec::new, |value| {
        value
            .as_array()
            .expect("an array")
            .iter()
            .map(|entry| entry.as_table().expect("a table"))
            .collect()
    })
}

/// The contents of a schema file.
fn raw_schema(text: &str) -> RawSchema {
    let table: toml::Table = text.parse().expect("valid TOML");
    let mut engine_params = KeyMap::new();
    if let Some(params) = table.get("engine_params") {
        for (key, value) in params.as_table().expect("a table") {
            engine_params.insert(key.clone(), raw_value(value));
        }
    }
    RawSchema {
        id: text_of(&table, "id"),
        name: text_of(&table, "name"),
        engine: text_of(&table, "engine"),
        inputs: tables_of(&table, "inputs")
            .into_iter()
            .map(|input| RawInput {
                role: text_of(input, "role"),
                description: text_of(input, "description"),
                required: input
                    .get("required")
                    .is_none_or(|required| required.as_bool().expect("a bool")),
            })
            .collect(),
        settings: tables_of(&table, "settings")
            .into_iter()
            .map(|setting| RawSetting {
                key: text_of(setting, "key"),
                label: text_of(setting, "label"),
                kind: text_of(setting, "type"),
                default: raw_value(&setting["default"]),
                min: setting.get("min").and_then(toml::Value::as_integer),
                max: setting.get("max").and_then(toml::Value::as_integer),
                options: tables_of(setting, "options")
                    .into_iter()
                    .map(|option| RawOption {
                        value: text_of(option, "value"),
                        label: text_of(option, "label"),
                    })
                    .collect(),
            })
            .collect(),
        engine_params,
    }
}

fn parse(text: &str) -> Result<DecoderSchema, DecoderError> {
    DecoderSchema::parse(&raw_schema(text))
}

fn bundled_decoders() -> Vec<SchemaDecoder> {
    let (decoders, errors) =
        all_decoders(&vec![raw_schema(TDM_AUDIO_SCHEMA), raw_schema(SPDIF_SCHEMA)]);
    assert!(errors.is_empty(), "{errors:?}");
    decoders
}

#[test]
fn cache_entry_stores_result() {
    let key = (vec![], DecoderSettings::default());
    let mut entry = DecoderCacheEntry::new(key.clone(), 7);

    assert!(!entry.is_ready());
    assert!(entry.get().is_none());

    entry.set(Ok(Arc::new(DecodedData { rows: vec![] })));

    assert!(entry.is_ready());
    assert!(matches!(entry.get(), Some(Ok(_))));
    assert_eq!(entry.generation, 7);
    assert_eq!(entry.key, key);
}

#[test]
fn cache_entry_keeps_the_first_result() {
    let mut entry = DecoderCacheEntry::new((vec![], DecoderSettings::default()), 0);
    entry.set(Err("first".to_string()));
    entry.set(Ok(Arc::new(DecodedData { rows: vec![] })));
    assert!(matches!(entry.get(), Some(Err(error)) if error == "first"));
}

#[test]
fn formats_values() {
    assert_eq!(
        DecodedValue::integer(-1148, 16).format(ValueFormat::Decimal),
        "-1148"
    );
    assert_eq!(
        DecodedValue::integer(-1148, 16).format(ValueFormat::Hexadecimal),
        "0xfb84"
    );
    assert_eq!(
        DecodedValue::integer(0xabc, 24).format(ValueFormat::Hexadecimal),
        "0x000abc"
    );
    assert_eq!(DecodedValue::Undef.format(ValueFormat::Decimal), "x");
}

#[test]
fn formats_values_at_the_limits() {
    assert_eq!(
        DecodedValue::integer(i64::MIN, 64).format(ValueFormat::Decimal),
        "-9223372036854775808"
    );
    assert_eq!(
        DecodedValue::integer(-1, 64).format(ValueFormat::Hexadecimal),
        "0xffffffffffffffff"
    );
    assert_eq!(
        DecodedValue::integer(-1, 100).format(ValueFormat::Hexadecimal),
        "0xffffffffffffffff"
    );
    assert_eq!(
        DecodedValue::integer(3, 0).format(ValueFormat::Hexadecimal),
        "0x1"
    );
    assert_eq!(DecodedValue::HighImp.format(ValueFormat::Decimal), "z");
    assert_eq!(DecodedValue::DontCare.format(ValueFormat::Decimal), "-");
    assert_eq!(
        DecodedValue::text("parity").format(ValueFormat::Hexadecimal),
        "parity"
    );
    assert_eq!(ValueFormat::default().label(), "Decimal");
    assert_eq!(ValueFormat::Hexadecimal.label(), "Hexadecimal");
}

#[test]
fn values_have_kinds() {
    assert_eq!(DecodedValue::integer(1, 1).kind(), ValueKind::Normal);
    assert_eq!(DecodedValue::text("a").kind(), ValueKind::Normal);
    assert_eq!(DecodedValue::Undef.kind(), ValueKind::Undef);
    assert_eq!(DecodedValue::HighImp.kind(), ValueKind::HighImp);
    assert_eq!(DecodedValue::DontCare.kind(), ValueKind::DontCare);
}

#[test]
fn names_edges_and_bit_orders() {
    assert_eq!(Edge::parse("rise"), Some(Edge::Rising));
    assert_eq!(Edge::parse("falling"), Some(Edge::Falling));
    assert_eq!(Edge::parse("both"), None);
    assert_eq!(BitOrder::parse("msb_first"), Some(BitOrder::MsbFirst));
    assert_eq!(BitOrder::parse("lsb"), Some(BitOrder::LsbFirst));
    assert_eq!(BitOrder::parse(""), None);
}

#[test]
fn bundled_schemas_parse_and_resolve() {
    let mut saw_tdm_audio = false;
    let mut saw_spdif = false;
    for text in [TDM_AUDIO_SCHEMA, SPDIF_SCHEMA] {
        let schema = parse(text).expect("built-in schema should parse");
        let defaults = schema.settings.defaults();
        let params = schema.resolve_params(&defaults);
        for index in 0..schema.params.len() {
            let key = &schema.params.entry(index).0;
            assert!(
                params.get(key).is_some(),
                "schema {} did not resolve param {key}",
                schema.id
            );
        }

        match schema.id.as_str() {
            "tdm_audio" => {
                saw_tdm_audio = true;
                assert_eq!(
                    params
                        .get("frame_active_high")
                        .and_then(SettingValue::as_bool),
                    Some(true)
                );
                assert_eq!(
                    params.get("bits").and_then(SettingValue::as_integer),
                    Some(16)
                );

                let mut settings = defaults;
                settings.set("active_high".to_string(), SettingValue::Bool(false));
                settings.set("bits".to_string(), SettingValue::Integer(24));
                let params = schema.resolve_params(&settings);
                assert_eq!(
                    params
                        .get("frame_active_high")
                        .and_then(SettingValue::as_bool),
                    Some(false)
                );
                assert_eq!(
                    params.get("bits").and_then(SettingValue::as_integer),
                    Some(24)
                );
            }
            "spdif" => {
                saw_spdif = true;
                assert_eq!(
                    params.get("word_bits").and_then(SettingValue::as_enum),
                    Some("auto")
                );
                assert_eq!(
                    params.get("signed").and_then(SettingValue::as_bool),
                    Some(true)
                );
                assert_eq!(
                    params.get("show_preambles").and_then(SettingValue::as_bool),
                    Some(true)
                );
            }
            other => panic!("unexpected built-in schema '{other}'"),
        }
    }
    assert!(saw_tdm_audio, "tdm_audio schema not found");
    assert!(saw_spdif, "spdif schema not found");
}

#[test]
fn rejects_unknown_engine() {
    let text = r#"
id = "x"
name = "X"
engine = "does_not_exist"
"#;
    assert!(parse(text).is_err());
}

#[test]
fn rejects_unknown_setting_reference() {
    let text = r#"
id = "x"
name = "X"
engine = "clocked_serial"

[[settings]]
key = "bits"
label = "Bits"
type = "integer"
default = 16

[engine_params]
clock = "clock"
data = "data"
frame = "frame"
bits = "$bitss"
"#;
    assert!(parse(text).is_err());
}

#[test]
fn missing_settings_fall_back_to_defaults() {
    let text = r#"
id = "x"
name = "X"
engine = "clocked_serial"

[[settings]]
key = "bits"
label = "Bits"
type = "integer"
default = 24

[engine_params]
clock = "clock"
data = "data"
frame = "frame"
bits = "$bits"
"#;
    let schema = parse(text).expect("schema should parse");
    // An empty settings map stands in for a state file that predates the
    // setting: resolution must use the schema default, not an empty enum.
    let params = schema.resolve_params(&DecoderSettings::default());

    assert_eq!(
        params.get("bits").and_then(SettingValue::as_integer),
        Some(24)
    );
}

#[test]
fn schema_faults_are_told_apart() {
    let schema = |settings: &str, params: &str, engine: &str| {
        parse(&format!(
            "id = \"x\"\nname = \"X\"\nengine = \"{engine}\"\n{settings}\n[engine_params]\n{params}\n"
        ))
        .map(|_| ())
        .expect_err("schema should be refused")
        .message()
    };
    let setting = |kind: &str, default: &str| {
        format!(
            "[[settings]]\nkey = \"bits\"\nlabel = \"Bits\"\ntype = \"{kind}\"\ndefault = {default}\n"
        )
    };
    assert_eq!(
        schema(&setting("integer", "1.5"), "", "clocked_serial"),
        "Invalid default value for setting 'bits'"
    );
    assert_eq!(
        schema(&setting("float", "1"), "", "clocked_serial"),
        "Unknown setting type 'float'"
    );
    assert_eq!(
        schema(&setting("integer", "1"), "bits = \"$bitss\"", "clocked_serial"),
        "Engine parameter 'bits' references unknown setting 'bitss'"
    );
    assert_eq!(
        schema("", "bits = [1]", "clocked_serial"),
        "Invalid engine parameter 'bits'"
    );
    assert_eq!(
        schema("", "bits = 1", "does_not_exist"),
        "Unknown decoder engine 'does_not_exist'"
    );
}

#[test]
fn literal_parameters_are_kept() {
    let schema = parse(
        "id = \"x\"\nname = \"X\"\nengine = \"biphase_audio\"\n[engine_params]\n\
         data = \"line\"\nsigned = false\nword = 3\nempty = \"\"\n",
    )
    .expect("schema should parse");
    assert_eq!(
        schema.params.get("data"),
        Some(&ParamSource::Literal(SettingValue::Enum("line".to_string())))
    );
    let params = schema.resolve_params(&DecoderSettings::default());
    assert_eq!(params.get("signed"), Some(&SettingValue::Bool(false)));
    assert_eq!(params.get("word"), Some(&SettingValue::Integer(3)));
    assert_eq!(params.get("empty"), Some(&SettingValue::Enum(String::new())));
}

#[test]
fn bundled_schema_loads() {
    let decoders = bundled_decoders();
    let decoder = decoder_by_id(&decoders, "spdif").expect("bundled spdif decoder");
    assert_eq!(decoder.display_name(), "S/PDIF / AES3");
    assert_eq!(decoder.inputs().len(), 2);
    assert!(decoder.inputs()[0].required);
    assert!(!decoder.inputs()[1].required);
}

#[test]
fn earlier_decoders_are_found_first() {
    let other = SPDIF_SCHEMA.replace("S/PDIF / AES3", "Another");
    let broken = SPDIF_SCHEMA.replace("biphase_audio", "none");
    let (decoders, errors) = all_decoders(&vec![
        raw_schema(&broken),
        raw_schema(SPDIF_SCHEMA),
        raw_schema(&other),
    ]);
    assert_eq!(
        errors,
        [(
            0,
            DecoderError::UnknownEngine {
                engine: "none".to_string()
            }
        )]
    );
    assert_eq!(decoders.len(), 2);
    let found = decoder_by_id(&decoders, "spdif").expect("spdif decoder");
    assert_eq!(found.display_name(), "S/PDIF / AES3");
    assert!(decoder_by_id(&decoders, "tdm_audio").is_none());
}

#[test]
fn engines_are_found_by_id() {
    for engine in all_engines() {
        assert_eq!(engine_by_id(engine.id()), Some(engine));
    }
    assert_eq!(engine_by_id("clocked_serial"), Some(Engine::ClockedSerial));
    assert_eq!(engine_by_id("spdif"), None);
}

#[test]
fn recognizes_schema_files() {
    assert!(is_schema_file("my_tdm.toml"));
    assert!(!is_schema_file(".toml"));
    assert!(!is_schema_file("toml"));
    assert!(!is_schema_file("my_tdm.toml.bak"));
}

#[test]
fn decoders_validate_their_settings() {
    let decoders = bundled_decoders();
    let tdm = decoder_by_id(&decoders, "tdm_audio").expect("bundled tdm_audio decoder");
    let mut settings = tdm.default_settings();
    assert!(tdm.validate_settings(&settings).is_ok());
    assert_eq!(tdm.row_count(&Vec::new(), &settings), 3);

    settings.set("mode".to_string(), SettingValue::Enum("level".to_string()));
    settings.set("channels".to_string(), SettingValue::Integer(4));
    let error = tdm.validate_settings(&settings).expect_err("level mode has two channels");
    assert_eq!(
        error.message(),
        "level frame sync mode supports exactly 2 channels"
    );
    settings.set("channels".to_string(), SettingValue::Integer(65));
    let error = tdm.validate_settings(&settings).expect_err("too many channels");
    assert_eq!(error.message(), "Setting 'Channels' must be between 1 and 64");
    settings.set("channels".to_string(), SettingValue::Bool(true));
    let error = tdm.validate_settings(&settings).expect_err("wrong type");
    assert_eq!(error.message(), "Setting 'Channels' has the wrong type");
    settings.set("channels".to_string(), SettingValue::Integer(2));
    settings.set("order".to_string(), SettingValue::Enum("middle".to_string()));
    let error = tdm.validate_settings(&settings).expect_err("no such option");
    assert_eq!(error.message(), "Invalid value 'middle' for setting 'Bit order'");
    let error = tdm
        .validate_settings(&DecoderSettings::default())
        .expect_err("no settings");
    assert_eq!(error.message(), "Missing setting 'Frame sync mode'");

    let spdif = decoder_by_id(&decoders, "spdif").expect("bundled spdif decoder");
    let mut settings = spdif.default_settings();
    assert_eq!(spdif.row_count(&Vec::new(), &settings), 5);
    settings.set("show_user".to_string(), SettingValue::Bool(true));
    assert_eq!(spdif.row_count(&Vec::new(), &settings), 6);
}

#[test]
fn engine_parameters_are_checked() {
    let mut params = KeyMap::new();
    assert_eq!(
        Engine::BiphaseAudio.validate(&params).expect_err("no data").message(),
        "Missing engine parameter 'data'"
    );
    params.insert("data".to_string(), SettingValue::Enum("data".to_string()));
    params.insert("word_bits".to_string(), SettingValue::Enum("18".to_string()));
    assert_eq!(
        Engine::BiphaseAudio
            .validate(&params)
            .expect_err("no such word length")
            .message(),
        "Invalid 'word_bits' parameter"
    );
    assert_eq!(Engine::BiphaseAudio.row_count(&Vec::new(), &params), 0);
    for (key, message) in [
        ("clock", "Missing engine parameter 'clock'"),
        ("frame", "Missing engine parameter 'frame'"),
    ] {
        assert_eq!(
            Engine::ClockedSerial.validate(&params).expect_err(key).message(),
            message
        );
        params.insert(key.to_string(), SettingValue::Enum(key.to_string()));
    }
    assert!(Engine::ClockedSerial.validate(&params).is_ok());
    for (key, value, message) in [
        (
            "justification",
            SettingValue::Enum("center".to_string()),
            "Invalid 'justification' parameter",
        ),
        (
            "frame_mode",
            SettingValue::Enum("both".to_string()),
            "Invalid 'frame_mode' parameter",
        ),
        (
            "bit_order",
            SettingValue::Enum("any".to_string()),
            "Invalid 'bit_order' parameter",
        ),
        (
            "frame_edge",
            SettingValue::Enum("both".to_string()),
            "Invalid 'frame_edge' parameter",
        ),
        (
            "clock_edge",
            SettingValue::Enum("both".to_string()),
            "Invalid 'clock_edge' parameter",
        ),
    ] {
        params.insert(key.to_string(), value);
        assert_eq!(
            Engine::ClockedSerial.validate(&params).expect_err(key).message(),
            message
        );
    }
}

#[test]
fn serial_limits_are_checked() {
    let check = |key: &str, value: i64| {
        let mut params = KeyMap::new();
        for role in ["clock", "data", "frame"] {
            params.insert(role.to_string(), SettingValue::Enum(role.to_string()));
        }
        params.insert(key.to_string(), SettingValue::Integer(value));
        Engine::ClockedSerial
            .validate(&params)
            .map_err(|error| error.message())
    };
    assert_eq!(check("bits", 64), Ok(()));
    assert_eq!(check("bits", 65), Err("bits must be between 1 and 64".to_string()));
    assert_eq!(check("bits", -1), Err("bits must be between 1 and 64".to_string()));
    assert_eq!(check("channels", 0), Err("channels must be at least 1".to_string()));
    assert_eq!(check("channels", 1024), Ok(()));
    assert_eq!(
        check("channels", i64::MAX),
        Err("channels must be at most 1024".to_string())
    );
    assert_eq!(
        check("slot_width", 15),
        Err("slot_width must be at least bits".to_string())
    );
    assert_eq!(check("slot_width", 16), Ok(()));
    assert_eq!(check("slot_width", 0), Ok(()));
}

#[test]
fn settings_are_stored_by_key() {
    let schema = SettingsSchema {
        fields: vec![
            SettingField {
                key: "b".to_string(),
                label: "B".to_string(),
                default: SettingValue::Integer(3),
                kind: SettingKind::Integer { min: 0, max: 9 },
            },
            SettingField {
                key: "a".to_string(),
                label: "A".to_string(),
                default: SettingValue::Enum("x".to_string()),
                kind: SettingKind::Enum {
                    options: vec![SettingOption {
                        value: "x".to_string(),
                        label: "X".to_string(),
                    }],
                },
            },
        ],
    };
    let mut settings = schema.defaults();
    assert_eq!(settings.get_integer("b", 0), 3);
    assert_eq!(settings.get_enum("a", ""), "x");
    assert_eq!(settings.get_enum("b", "none"), "none");
    assert!(settings.get_bool("c", true));
    assert_eq!(schema.default_for("a"), Some(&SettingValue::Enum("x".to_string())));
    assert_eq!(schema.default_for("c"), None);
    settings.set("b".to_string(), SettingValue::Integer(4));
    assert_eq!(settings.get("b"), Some(&SettingValue::Integer(4)));
    // The values come in the order of their keys, whatever the order in which
    // they were stored.
    let values = settings.values();
    assert_eq!(values.len(), 2);
    assert_eq!(values.entry(0).0, "a");
    assert_eq!(values.entry(1).0, "b");
}

#[test]
fn numbers_and_text_are_bits() {
    let number = |bytes: Vec<u8>| bit_of(&VariableValue::BigUint(bytes));
    assert_eq!(number(vec![]), Bit::Zero);
    assert_eq!(number(vec![0, 0]), Bit::Zero);
    assert_eq!(number(vec![1]), Bit::One);
    assert_eq!(number(vec![1, 0]), Bit::One);
    assert_eq!(number(vec![0, 1]), Bit::Undef);
    assert_eq!(number(vec![2]), Bit::Undef);
    let text = |value: &str| bit_of(&VariableValue::String(value.to_string()));
    assert_eq!(text("0"), Bit::Zero);
    assert_eq!(text("1x"), Bit::One);
    assert_eq!(text("X"), Bit::Undef);
    assert_eq!(text("Z"), Bit::HighImp);
    assert_eq!(text("-"), Bit::DontCare);
    assert_eq!(text("h"), Bit::Weak);
    assert_eq!(text(""), Bit::Undef);
}

#[test]
fn hierarchical_names_read_back() {
    let variable = VariableRef::from_hierarchy_string("tb.dut.data");
    assert_eq!(variable.path, ["tb", "dut"]);
    assert_eq!(variable.name, "data");
    assert_eq!(variable.full_path_string(), "tb.dut.data");
    let top = VariableRef::from_hierarchy_string("data");
    assert!(top.path.is_empty());
    assert_eq!(top.full_path_string(), "data");
    for name in ["", ".", "a..b", "a."] {
        assert_eq!(
            VariableRef::from_hierarchy_string(name).full_path_string(),
            name
        );
    }
}

#[test]
fn changes_must_be_in_time_order() {
    let at = |time: u64| (time, VariableValue::BigUint(vec![1]));
    assert!(SignalAccessor::new(vec![at(0), at(3), at(3), at(4)]).is_some());
    assert!(SignalAccessor::new(vec![at(0), at(3), at(2)]).is_none());
    assert!(SignalAccessor::new(vec![]).is_some());
}

fn small_waveform() -> WaveContainer {
    WaveContainer {
        variables: vec![
            WaveVariable {
                variable_ref: VariableRef::from_hierarchy_string("tb.data"),
                num_bits: Some(1),
                signal: SignalId(4),
            },
            WaveVariable {
                variable_ref: VariableRef::from_hierarchy_string("tb.alias"),
                num_bits: Some(8),
                signal: SignalId(4),
            },
            WaveVariable {
                variable_ref: VariableRef::from_hierarchy_string("tb.idle"),
                num_bits: None,
                signal: SignalId(5),
            },
        ],
        signals: vec![LoadedSignal {
            id: SignalId(4),
            accessor: SignalAccessor::new(vec![(1, VariableValue::BigUint(vec![1]))])
                .expect("in time order"),
        }],
    }
}

fn input(role: &str, name: &str) -> DecoderInput {
    DecoderInput {
        role: role.to_string(),
        variable_ref: VariableRef::from_hierarchy_string(name),
    }
}

#[test]
fn inputs_are_resolved() {
    let waves = small_waveform();
    let signals = resolve_inputs(&waves, &vec![input("a", "tb.data"), input("b", "tb.alias")])
        .expect("both are loaded");
    assert_eq!(signals.len(), 2);
    assert_eq!(signals[0].role, "a");
    assert_eq!(signals[1].num_bits, Some(8));
    assert_eq!(signals[1].accessor.changes().len(), 1);

    let error = resolve_inputs(&waves, &vec![input("a", "tb.none")]).expect_err("unknown");
    assert!(matches!(error, DecoderError::UnknownVariable { variable } if variable == "tb.none"));
    let error = resolve_inputs(&waves, &vec![input("a", "tb.idle")]).expect_err("not loaded");
    assert!(matches!(error, DecoderError::SignalNotLoaded { variable } if variable == "tb.idle"));

    let settings = DecoderSettings::default();
    let context = DecoderContext {
        inputs: &signals,
        settings: &settings,
    };
    assert!(context.optional_input("c").is_none());
    assert_eq!(
        context.input("c").expect_err("no such role").message(),
        "No signal assigned to decoder input 'c'"
    );
    assert!(check_single_bit(&signals[0], "a").is_ok());
    assert_eq!(
        check_single_bit(&signals[1], "b").expect_err("eight bits").message(),
        "decoder input 'b' must be a 1-bit signal, but 'alias' has 8 bits"
    );
}

#[test]
fn cache_keys_name_the_signals() {
    let waves = small_waveform();
    let mut settings = DecoderSettings::default();
    settings.set("bits".to_string(), SettingValue::Integer(4));
    let (signals, kept) = cache_key(
        &waves,
        &vec![input("a", "tb.idle"), input("b", "tb.alias")],
        &settings,
    )
    .expect("both are known");
    assert_eq!(signals, [SignalId(5), SignalId(4)]);
    assert_eq!(kept, settings);
    assert!(cache_key(&waves, &vec![input("a", "tb.none")], &settings).is_err());
}
