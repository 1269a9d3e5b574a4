//! What a schema makes of its file, and a decoder of its schema.
use vstd::prelude::*;
use crate::decoders::decoder::SignalDecoder;
use crate::decoders::engines;
use crate::decoders::engines::biphase_audio;
use crate::decoders::engines::clocked_serial;
use crate::decoders::engines::{DecoderEngine, Engine};
#[allow(unused_imports)]
use crate::decoders::error::ErrorView;
use crate::decoders::input::SignalView;
use crate::decoders::registry;
use crate::decoders::schema;
use crate::decoders::schema::{RawSchema, RawSetting, RawValue, SchemaDecoder, SchemaView, SourceView};
use crate::decoders::settings;
use crate::decoders::settings::{FieldView, KindView, SettingView};

verus! {

/// Whether a setting value is what a value in a file says.
pub open spec fn says(value: RawValue, setting: SettingView) -> bool {
    match value {
        RawValue::Boolean(b) => setting == SettingView::Bool(b),
        RawValue::Integer(n) => setting == SettingView::Integer(n),
        RawValue::Text(words) => setting == SettingView::Enum(words@),
        RawValue::Other => false,
    }
}

proof fn kinds_differ()
    ensures
        "bool"@ != "integer"@,
        "bool"@ != "enum"@,
        "integer"@ != "enum"@,
        "clocked_serial"@ != "biphase_audio"@,
{
    reveal_strlit("bool");
    reveal_strlit("integer");
    reveal_strlit("enum");
    reveal_strlit("clocked_serial");
    reveal_strlit("biphase_audio");
    assert("bool"@[0] == 'b' && "integer"@[0] == 'i' && "enum"@[0] == 'e');
    assert("clocked_serial"@[0] == 'c' && "biphase_audio"@[0] == 'b');
}

/// Whether a field is what a file says of a setting: its key, label and default,
/// and its kind with the bounds or the options.
pub open spec fn declares(raw: RawSetting, field: FieldView) -> bool {
    &&& field.key == raw.key@
    &&& field.label == raw.label@
    &&& says(raw.default, field.default)
    &&& raw.kind@ == "bool"@ <==> field.kind is Bool
    &&& raw.kind@ == "integer"@ <==> field.kind is Integer
    &&& raw.kind@ == "enum"@ <==> field.kind is Enum
    &&& field.kind matches KindView::Integer { min, max } ==> {
        &&& min == (if raw.min is Some {
            raw.min.unwrap()
        } else {
            -0x8000_0000_0000_0000i64
        })
        &&& max == (if raw.max is Some {
            raw.max.unwrap()
        } else {
            0x7fff_ffff_ffff_ffffi64
        })
    }
    &&& field.kind matches KindView::Enum { options } ==> {
        &&& options.len() == raw.options@.len()
        &&& forall|i: int|
            0 <= i < options.len() ==> (#[trigger] options[i]).value == raw.options@[i].value@
                && options[i].label == raw.options@[i].label@
    }
}

/// A setting is refused exactly where its default is no boolean, integer or
/// text, or where its kind is none that there is; otherwise it is what the file
/// says.
pub proof fn settings_are_declared(raw: RawSetting)
    ensures
        match schema::declared_field(raw) {
            Ok(field) => declares(raw, field),
            Err(ErrorView::InvalidDefault { key }) => raw.default is Other && key == raw.key@,
            Err(ErrorView::UnknownSettingType { kind }) => {
                &&& raw.default !is Other
                &&& kind == raw.kind@
                &&& kind != "bool"@ && kind != "integer"@ && kind != "enum"@
            },
            Err(_) => false,
        },
{
    kinds_differ();
}

/// A schema is what its file says: its names, its inputs, its settings, and its
/// parameters, of which those that begin with `$` are settings and all others
/// are values.
pub proof fn schemas_are_declared(raw: RawSchema, schema: SchemaView)
    requires
        schema::declared_schema(raw) == Ok::<SchemaView, ErrorView>(schema),
    ensures
        schema.id == raw.id@,
        schema.name == raw.name@,
        schema.engine == raw.engine@,
        schema.engine == "clocked_serial"@ || schema.engine == "biphase_audio"@,
        schema.inputs.len() == raw.inputs@.len(),
        forall|i: int|
            0 <= i < schema.inputs.len() ==> {
                &&& (#[trigger] schema.inputs[i]).role == raw.inputs@[i].role@
                &&& schema.inputs[i].description == raw.inputs@[i].description@
                &&& schema.inputs[i].required == raw.inputs@[i].required
            },
        schema.settings.len() == raw.settings@.len(),
        forall|i: int|
            0 <= i < schema.settings.len() ==> declares(
                raw.settings@[i],
                #[trigger] schema.settings[i],
            ),
        schema.params.dom() == raw.engine_params@.dom(),
        forall|key: Seq<char>| #[trigger]
            schema.params.contains_key(key) ==> source_says(
                raw.engine_params@[key],
                schema.params[key],
            ),
{
    kinds_differ();
    let entries = raw.engine_params.in_order();
    let fields = schema::declared_fields(raw.settings@);
    assert(schema.params.dom() =~= raw.engine_params@.dom());
    assert forall|i: int| 0 <= i < schema.settings.len() implies declares(
        raw.settings@[i],
        #[trigger] schema.settings[i],
    ) by {
        no_setting_fault(raw.settings@, 0, i);
        settings_are_declared(raw.settings@[i]);
    }
    assert forall|key: Seq<char>| #[trigger]
        schema.params.contains_key(key) implies source_says(
        raw.engine_params@[key],
        schema.params[key],
    ) by {
        let i = crate::keymap::key_index(entries, key);
        schema::no_param_fault(entries, fields, 0, i);
        if let RawValue::Text(words) = raw.engine_params@[key] {
            if words@.len() > 0 && words@[0] == '$' {
                assert(words@ =~= seq!['$'] + words@.skip(1));
            }
        }
    }
}

/// Whether a parameter's source is what its value in the file says.
pub open spec fn source_says(value: RawValue, source: SourceView) -> bool {
    let reference = match value {
        RawValue::Text(words) => words@.len() > 0 && words@[0] == '$',
        _ => false,
    };
    match source {
        SourceView::Setting(key) => reference && (value matches RawValue::Text(words) && words@
            == seq!['$'] + key),
        SourceView::Literal(setting) => !reference && says(value, setting),
    }
}

proof fn no_setting_fault(raw: Seq<RawSetting>, from: int, i: int)
    requires
        schema::first_setting_fault(raw, from) is None,
        0 <= from <= i < raw.len(),
    ensures
        schema::declared_field(raw[i]) is Ok,
    decreases i - from,
{
    if from < i {
        no_setting_fault(raw, from + 1, i);
    }
}

/// A parameter that is a value in the schema is that value, whatever is stored.
/// One that comes from a setting is what is stored for that setting alone.
pub proof fn parameters_are_resolved(
    schema: SchemaView,
    stored: Map<Seq<char>, SettingView>,
    key: Seq<char>,
)
    requires
        schema.params.contains_key(key),
    ensures
        schema::resolved_params(schema, stored).dom() == schema.params.dom(),
        match schema.params[key] {
            SourceView::Literal(value) => schema::resolved_params(schema, stored)[key] == value,
            SourceView::Setting(setting) => stored.contains_key(setting)
                ==> schema::resolved_params(schema, stored)[key] == stored[setting],
        },
{
    assert(schema::resolved_params(schema, stored).dom() =~= schema.params.dom());
}

/// Which engine has which name.
pub proof fn engines_have_their_names(id: Seq<char>)
    ensures
        engines::engine_named(id) == Some(Engine::ClockedSerial) <==> id == "clocked_serial"@,
        engines::engine_named(id) == Some(Engine::BiphaseAudio) <==> id == "biphase_audio"@,
        engines::engine_named(id) is None <==> id != "clocked_serial"@ && id != "biphase_audio"@,
{
    kinds_differ();
}

/// A decoder decodes with the engine that its schema names, and with the
/// parameters that its schema resolves from the settings.
pub proof fn decoders_run_their_engine(
    decoder: SchemaDecoder,
    stored: Map<Seq<char>, SettingView>,
    inputs: Seq<SignalView>,
)
    ensures
        ({
            let schema = decoder.declared();
            let values = schema::resolved_params(schema, stored);
            &&& decoder.identifier() == schema.id
            &&& decoder.title() == schema.name
            &&& decoder.needs() == schema.inputs
            &&& decoder.fields() == schema.settings
            &&& schema.engine == "clocked_serial"@ ==> decoder.decoded(stored, inputs) == (
            match clocked_serial::params::typed_params(values) {
                Ok(typed) => clocked_serial::decoded_rows(typed, inputs),
                Err(fault) => Err(fault),
            })
            &&& schema.engine == "biphase_audio"@ ==> decoder.decoded(stored, inputs) == (
            match biphase_audio::typed_params(values) {
                Ok(typed) => biphase_audio::decoded_rows(typed, inputs),
                Err(fault) => Err(fault),
            })
        }),
{
    kinds_differ();
}

/// Settings are refused exactly where one of them does not fit its declaration,
/// or where the engine refuses the parameters that they give.
pub proof fn decoders_refuse_bad_settings(
    decoder: SchemaDecoder,
    stored: Map<Seq<char>, SettingView>,
)
    ensures
        ({
            let schema = decoder.declared();
            let values = schema::resolved_params(schema, stored);
            let sound = forall|i: int|
                0 <= i < schema.settings.len() ==> settings::field_fault(
                    #[trigger] schema.settings[i],
                    stored,
                ) is None;
            &&& schema.engine == "clocked_serial"@ ==> (decoder.settings_fault(stored) is None
                <==> sound && (clocked_serial::params::typed_params(values) matches Ok(typed)
                && clocked_serial::params::limits_fault(typed) is None))
            &&& schema.engine == "biphase_audio"@ ==> (decoder.settings_fault(stored) is None
                <==> sound && biphase_audio::typed_params(values) is Ok)
        }),
{
    kinds_differ();
    settings::valid_means_no_fault(decoder.declared().settings, stored);
}

/// Every file that is a sound schema gives its decoder, in the order of the
/// files, and every other one is reported with its place.
pub proof fn every_file_is_loaded_or_reported(files: Seq<RawSchema>, n: nat, k: int)
    requires
        n <= files.len(),
        0 <= k < n,
    ensures
        match schema::declared_schema(files[k]) {
            Ok(schema) => registry::loaded(files, n).contains(schema),
            Err(fault) => registry::refused(files, n).contains((k, fault)),
        },
        registry::loaded(files, n).len() + registry::refused(files, n).len() == n,
    decreases n,
{
    loads_add_up(files, n);
    loads_add_up(files, (n - 1) as nat);
    let kept = registry::loaded(files, (n - 1) as nat);
    let told = registry::refused(files, (n - 1) as nat);
    if k < n - 1 {
        every_file_is_loaded_or_reported(files, (n - 1) as nat, k);
        match schema::declared_schema(files[k]) {
            Ok(schema) => {
                let i = choose|i: int| 0 <= i < kept.len() && kept[i] == schema;
                assert(registry::loaded(files, n)[i] == schema);
            },
            Err(fault) => {
                let i = choose|i: int| 0 <= i < told.len() && told[i] == (k, fault);
                assert(registry::refused(files, n)[i] == (k, fault));
            },
        }
    } else {
        match schema::declared_schema(files[k]) {
            Ok(schema) => {
                assert(registry::loaded(files, n)[kept.len() as int] == schema);
            },
            Err(fault) => {
                assert(registry::refused(files, n)[told.len() as int] == (k, fault));
            },
        }
    }
}

proof fn loads_add_up(files: Seq<RawSchema>, n: nat)
    requires
        n <= files.len(),
    ensures
        registry::loaded(files, n).len() + registry::refused(files, n).len() == n,
    decreases n,
{
    if n > 0 {
        loads_add_up(files, (n - 1) as nat);
    }
}

/// The decoder that is found under an identifier has it, and none before it has.
pub proof fn identifiers_find_the_first(schemas: Seq<SchemaView>, id: Seq<char>, from: int)
    requires
        0 <= from,
    ensures
        match registry::first_with_id(schemas, id, from) {
            Some(i) => {
                &&& from <= i < schemas.len()
                &&& schemas[i].id == id
                &&& forall|j: int| from <= j < i ==> (#[trigger] schemas[j]).id != id
            },
            None => forall|j: int| from <= j < schemas.len() ==> (#[trigger] schemas[j]).id != id,
        },
    decreases schemas.len() - from,
{
    if from < schemas.len() {
        identifiers_find_the_first(schemas, id, from + 1);
    }
}

proof fn first_bad_setting(raw: Seq<RawSetting>, from: int, i: int)
    requires
        0 <= from <= i < raw.len(),
        schema::declared_field(raw[i]) is Err,
        forall|j: int| from <= j < i ==> schema::declared_field(#[trigger] raw[j]) is Ok,
    ensures
        schema::first_setting_fault(raw, from) == Some(schema::declared_field(raw[i])->Err_0),
    decreases i - from,
{
    if from < i {
        assert(schema::declared_field(raw[from]) is Ok);
        first_bad_setting(raw, from + 1, i);
    }
}

/// The first bad setting of a file is told, whatever else is wrong with it.
pub proof fn first_bad_setting_is_told(raw: RawSchema, i: int)
    requires
        0 <= i < raw.settings@.len(),
        schema::declared_field(raw.settings@[i]) is Err,
        forall|j: int| 0 <= j < i ==> schema::declared_field(#[trigger] raw.settings@[j]) is Ok,
    ensures
        schema::declared_schema(raw) == Err::<SchemaView, ErrorView>(
            schema::declared_field(raw.settings@[i])->Err_0,
        ),
{
    first_bad_setting(raw.settings@, 0, i);
}

proof fn setting_faults(raw: Seq<RawSetting>, from: int)
    ensures
        schema::first_setting_fault(raw, from) matches Some(fault) ==> fault is InvalidDefault
            || fault is UnknownSettingType,
    decreases raw.len() - from,
{
    if 0 <= from < raw.len() {
        setting_faults(raw, from + 1);
    }
}

proof fn parameter_faults(params: Seq<(String, RawValue)>, fields: Seq<FieldView>, from: int)
    ensures
        schema::first_param_fault(params, fields, from) matches Some(fault)
            ==> fault is UnknownSettingReference || fault is InvalidEngineParameter,
    decreases params.len() - from,
{
    if 0 <= from < params.len() {
        parameter_faults(params, fields, from + 1);
    }
}

/// An unknown engine is told only of a file that is sound otherwise.
pub proof fn unknown_engine_is_told_last(raw: RawSchema, engine: Seq<char>)
    requires
        schema::declared_schema(raw) == Err::<SchemaView, ErrorView>(
            ErrorView::UnknownEngine { engine },
        ),
    ensures
        engine == raw.engine@,
        engine != "clocked_serial"@ && engine != "biphase_audio"@,
        forall|i: int|
            0 <= i < raw.settings@.len() ==> schema::declared_field(
                #[trigger] raw.settings@[i],
            ) is Ok,
        forall|i: int|
            0 <= i < raw.engine_params.in_order().len() ==> schema::param_fault(
                (#[trigger] raw.engine_params.in_order()[i]).0@,
                raw.engine_params.in_order()[i].1,
                schema::declared_fields(raw.settings@),
            ) is None,
{
    setting_faults(raw.settings@, 0);
    parameter_faults(raw.engine_params.in_order(), schema::declared_fields(raw.settings@), 0);
    assert forall|i: int| 0 <= i < raw.settings@.len() implies schema::declared_field(
        #[trigger] raw.settings@[i],
    ) is Ok by {
        no_setting_fault(raw.settings@, 0, i);
    }
    let entries = raw.engine_params.in_order();
    let fields = schema::declared_fields(raw.settings@);
    assert forall|i: int| 0 <= i < entries.len() implies schema::param_fault(
        (#[trigger] entries[i]).0@,
        entries[i].1,
        fields,
    ) is None by {
        schema::no_param_fault(entries, fields, 0, i);
    }
}

} // verus!
