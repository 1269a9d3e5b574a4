//! Decoder schemas.
//!
//! A schema declares a decoder's id, name, inputs, settings, and the
//! parameters passed to a [`DecoderEngine`].
use vstd::prelude::*;
use crate::decoders::decoder::SignalDecoder;
use crate::decoders::engines;
use crate::decoders::engines::{DecoderEngine, Engine, EngineParams};
use crate::decoders::error::{DecoderError, ErrorView};
use crate::decoders::input;
use crate::decoders::input::{
    DecoderContext, DecoderInput, InputSpec, InputSpecView, SignalView,
};
use crate::decoders::settings;
use crate::decoders::settings::{
    DecoderSettings, FieldView, KindView, OptionView, SettingField, SettingKind, SettingOption,
    SettingValue, SettingView, SettingsSchema,
};
use crate::decoders::value::{DecodedData, RowView};
use crate::keymap;
use crate::keymap::KeyMap;
use crate::text;

verus! {

/// A value in a schema file.
#[derive(Debug, PartialEq)]
pub enum RawValue {
    Boolean(bool),
    Integer(i64),
    Text(String),
    /// Any other kind of value, which no setting can have.
    Other,
}

/// An input as it stands in a schema file.
#[derive(Debug, PartialEq)]
pub struct RawInput {
    pub role: String,
    pub description: String,
    pub required: bool,
}

/// An option of an enum setting as it stands in a schema file.
#[derive(Debug, PartialEq)]
pub struct RawOption {
    pub value: String,
    pub label: String,
}

/// A setting as it stands in a schema file.
#[derive(Debug, PartialEq)]
pub struct RawSetting {
    pub key: String,
    pub label: String,
    pub kind: String,
    pub default: RawValue,
    pub min: Option<i64>,
    pub max: Option<i64>,
    pub options: Vec<RawOption>,
}

/// A schema file.
#[derive(Debug, PartialEq)]
pub struct RawSchema {
    pub id: String,
    pub name: String,
    pub engine: String,
    pub inputs: Vec<RawInput>,
    pub settings: Vec<RawSetting>,
    pub engine_params: KeyMap<RawValue>,
}

/// Where an engine parameter comes from.
#[derive(Debug, PartialEq)]
pub enum ParamSource {
    /// Resolved from the setting with this key.
    Setting(String),
    /// A literal value.
    Literal(SettingValue),
}

/// A [`ParamSource`] with its texts as sequences of characters.
#[verifier::ext_equal]
pub enum SourceView {
    Setting(Seq<char>),
    Literal(SettingView),
}

impl View for ParamSource {
    type V = SourceView;

    open spec fn view(&self) -> SourceView {
        match *self {
            ParamSource::Setting(key) => SourceView::Setting(key@),
            ParamSource::Literal(value) => SourceView::Literal(value@),
        }
    }
}

impl Clone for ParamSource {
    fn clone(&self) -> (copy: Self)
        ensures
            copy == *self,
    {
        match self {
            ParamSource::Setting(key) => ParamSource::Setting(key.clone()),
            ParamSource::Literal(value) => ParamSource::Literal(value.clone()),
        }
    }
}

/// A decoder defined by a schema file.
#[derive(Debug)]
pub struct DecoderSchema {
    pub id: String,
    pub name: String,
    pub engine: String,
    pub inputs: Vec<InputSpec>,
    pub settings: SettingsSchema,
    pub params: KeyMap<ParamSource>,
}

/// A [`DecoderSchema`] with its texts as sequences of characters.
#[verifier::ext_equal]
pub struct SchemaView {
    pub id: Seq<char>,
    pub name: Seq<char>,
    pub engine: Seq<char>,
    pub inputs: Seq<InputSpecView>,
    pub settings: Seq<FieldView>,
    pub params: Map<Seq<char>, SourceView>,
}

impl View for DecoderSchema {
    type V = SchemaView;

    open spec fn view(&self) -> SchemaView {
        SchemaView {
            id: self.id@,
            name: self.name@,
            engine: self.engine@,
            inputs: input::spec_views(self.inputs@),
            settings: self.settings@,
            params: self.params@.map_values(|source: ParamSource| source@),
        }
    }
}

impl Clone for DecoderSchema {
    fn clone(&self) -> (copy: Self)
        ensures
            copy@ == self@,
    {
        let inputs = self.inputs.clone();
        let params = self.params.clone();
        assert(input::spec_views(inputs@) =~= input::spec_views(self.inputs@));
        assert(params.in_order() =~= self.params.in_order());
        DecoderSchema {
            id: self.id.clone(),
            name: self.name.clone(),
            engine: self.engine.clone(),
            inputs,
            settings: self.settings.clone(),
            params,
        }
    }
}

/// The setting value that a value in a file stands for, if it is of a kind that
/// settings have.
pub open spec fn setting_of(value: RawValue) -> Option<SettingView> {
    match value {
        RawValue::Boolean(value) => Some(SettingView::Bool(value)),
        RawValue::Integer(value) => Some(SettingView::Integer(value)),
        RawValue::Text(value) => Some(SettingView::Enum(value@)),
        RawValue::Other => None,
    }
}

/// The inputs that a file declares.
pub open spec fn declared_inputs(inputs: Seq<RawInput>) -> Seq<InputSpecView> {
    Seq::new(
        inputs.len(),
        |i: int|
            InputSpecView {
                role: inputs[i].role@,
                description: inputs[i].description@,
                required: inputs[i].required,
            },
    )
}

/// The options that a file declares.
pub open spec fn declared_options(options: Seq<RawOption>) -> Seq<OptionView> {
    Seq::new(
        options.len(),
        |i: int| OptionView { value: options[i].value@, label: options[i].label@ },
    )
}

/// The kind of setting that a file declares. An integer without a bound may
/// take any value on that side.
pub open spec fn declared_kind(setting: RawSetting) -> Option<KindView> {
    if setting.kind@ == "bool"@ {
        Some(KindView::Bool)
    } else if setting.kind@ == "integer"@ {
        Some(
            KindView::Integer {
                min: match setting.min {
                    Some(min) => min,
                    None => i64::MIN,
                },
                max: match setting.max {
                    Some(max) => max,
                    None => i64::MAX,
                },
            },
        )
    } else if setting.kind@ == "enum"@ {
        Some(KindView::Enum { options: declared_options(setting.options@) })
    } else {
        None
    }
}

/// The setting that a file declares, or what is wrong with it.
pub open spec fn declared_field(setting: RawSetting) -> Result<FieldView, ErrorView> {
    match (setting_of(setting.default), declared_kind(setting)) {
        (None, _) => Err(ErrorView::InvalidDefault { key: setting.key@ }),
        (Some(_), None) => Err(ErrorView::UnknownSettingType { kind: setting.kind@ }),
        (Some(default), Some(kind)) => Ok(
            FieldView { key: setting.key@, label: setting.label@, default, kind },
        ),
    }
}

/// The first fault of a setting, from position `from` on.
pub open spec fn first_setting_fault(raw: Seq<RawSetting>, from: int) -> Option<ErrorView>
    decreases raw.len() - from,
{
    if from < 0 || from >= raw.len() {
        None
    } else {
        match declared_field(raw[from]) {
            Err(fault) => Some(fault),
            Ok(_) => first_setting_fault(raw, from + 1),
        }
    }
}

/// The settings that a file declares.
pub open spec fn declared_fields(raw: Seq<RawSetting>) -> Seq<FieldView> {
    Seq::new(raw.len(), |i: int| declared_field(raw[i])->Ok_0)
}

/// Whether a value refers to a setting: it is text that begins with `$`.
pub open spec fn is_reference(value: RawValue) -> bool {
    match value {
        RawValue::Text(text) => text@.len() > 0 && text@[0] == '$',
        _ => false,
    }
}

/// The key of the setting that a value refers to.
pub open spec fn referred(value: RawValue) -> Seq<char> {
    match value {
        RawValue::Text(text) => text@.skip(1),
        _ => Seq::empty(),
    }
}

/// Where a parameter comes from.
pub open spec fn source_of(value: RawValue) -> SourceView {
    if is_reference(value) {
        SourceView::Setting(referred(value))
    } else {
        SourceView::Literal(setting_of(value).unwrap())
    }
}

/// What is wrong with a parameter, if anything.
pub open spec fn param_fault(
    key: Seq<char>,
    value: RawValue,
    fields: Seq<FieldView>,
) -> Option<ErrorView> {
    if is_reference(value) {
        if settings::declares(fields, referred(value)) {
            None
        } else {
            Some(ErrorView::UnknownSettingReference { key, setting: referred(value) })
        }
    } else if setting_of(value) is None {
        Some(ErrorView::InvalidEngineParameter { key })
    } else {
        None
    }
}

/// The first fault of a parameter, from position `from` of the key order on.
pub open spec fn first_param_fault(
    params: Seq<(String, RawValue)>,
    fields: Seq<FieldView>,
    from: int,
) -> Option<ErrorView>
    decreases params.len() - from,
{
    if from < 0 || from >= params.len() {
        None
    } else if param_fault(params[from].0@, params[from].1, fields) is Some {
        param_fault(params[from].0@, params[from].1, fields)
    } else {
        first_param_fault(params, fields, from + 1)
    }
}

/// The schema that a file declares, or what is wrong with it: first its
/// settings, then its parameters, then its engine.
pub open spec fn declared_schema(raw: RawSchema) -> Result<SchemaView, ErrorView> {
    let fields = declared_fields(raw.settings@);
    match (
        first_setting_fault(raw.settings@, 0),
        first_param_fault(raw.engine_params.in_order(), fields, 0),
        engines::engine_named(raw.engine@),
    ) {
        (Some(fault), _, _) => Err(fault),
        (None, Some(fault), _) => Err(fault),
        (None, None, None) => Err(ErrorView::UnknownEngine { engine: raw.engine@ }),
        (None, None, Some(_)) => Ok(
            SchemaView {
                id: raw.id@,
                name: raw.name@,
                engine: raw.engine@,
                inputs: declared_inputs(raw.inputs@),
                settings: fields,
                params: raw.engine_params@.map_values(|value: RawValue| source_of(value)),
            },
        ),
    }
}

fn setting_value(value: &RawValue) -> (setting: Option<SettingValue>)
    ensures
        match (setting, setting_of(*value)) {
            (Some(found), Some(view)) => found@ == view,
            (None, None) => true,
            _ => false,
        },
{
    match value {
        RawValue::Boolean(value) => Some(SettingValue::Bool(*value)),
        RawValue::Integer(value) => Some(SettingValue::Integer(*value)),
        RawValue::Text(value) => Some(SettingValue::Enum(value.clone())),
        RawValue::Other => None,
    }
}

fn parse_inputs(raw: &Vec<RawInput>) -> (inputs: Vec<InputSpec>)
    ensures
        input::spec_views(inputs@) == declared_inputs(raw@),
{
    let mut inputs: Vec<InputSpec> = Vec::new();
    let mut i: usize = 0;
    while i < raw.len()
        invariant
            i <= raw.len(),
            input::spec_views(inputs@) =~= declared_inputs(raw@).take(i as int),
        decreases raw.len() - i,
    {
        let ghost before = input::spec_views(inputs@);
        let spec = InputSpec {
            role: raw[i].role.clone(),
            description: raw[i].description.clone(),
            required: raw[i].required,
        };
        let ghost view = spec@;
        inputs.push(spec);
        proof {
            assert(view == declared_inputs(raw@)[i as int]);
            assert(input::spec_views(inputs@) =~= before.push(view));
        }
        i += 1;
    }
    assert(declared_inputs(raw@).take(i as int) =~= declared_inputs(raw@));
    inputs
}

fn parse_options(raw: &Vec<RawOption>) -> (options: Vec<SettingOption>)
    ensures
        settings::option_views(options@) == declared_options(raw@),
{
    let mut options: Vec<SettingOption> = Vec::new();
    let mut i: usize = 0;
    while i < raw.len()
        invariant
            i <= raw.len(),
            settings::option_views(options@) =~= declared_options(raw@).take(i as int),
        decreases raw.len() - i,
    {
        let ghost before = settings::option_views(options@);
        let option = SettingOption { value: raw[i].value.clone(), label: raw[i].label.clone() };
        let ghost view = option@;
        options.push(option);
        proof {
            assert(view == declared_options(raw@)[i as int]);
            assert(settings::option_views(options@) =~= before.push(view));
        }
        i += 1;
    }
    assert(declared_options(raw@).take(i as int) =~= declared_options(raw@));
    options
}

fn parse_setting(raw: &RawSetting) -> (field: Result<SettingField, DecoderError>)
    ensures
        match (field, declared_field(*raw)) {
            (Ok(found), Ok(view)) => found@ == view,
            (Err(error), Err(fault)) => error@ == fault,
            _ => false,
        },
{
    let default = match setting_value(&raw.default) {
        Some(default) => default,
        None => {
            return Err(DecoderError::InvalidDefault { key: raw.key.clone() });
        },
    };
    let kind_name = raw.kind.as_str();
    let kind = if text::same_text(kind_name, "bool") {
        SettingKind::Bool
    } else if text::same_text(kind_name, "integer") {
        SettingKind::Integer {
            min: match raw.min {
                Some(min) => min,
                None => i64::MIN,
            },
            max: match raw.max {
                Some(max) => max,
                None => i64::MAX,
            },
        }
    } else if text::same_text(kind_name, "enum") {
        SettingKind::Enum { options: parse_options(&raw.options) }
    } else {
        return Err(DecoderError::UnknownSettingType { kind: raw.kind.clone() });
    };
    Ok(SettingField { key: raw.key.clone(), label: raw.label.clone(), default, kind })
}

fn parse_settings(raw: &Vec<RawSetting>) -> (result: Result<SettingsSchema, DecoderError>)
    ensures
        match (result, first_setting_fault(raw@, 0)) {
            (Ok(schema), None) => schema@ == declared_fields(raw@),
            (Err(error), Some(fault)) => error@ == fault,
            _ => false,
        },
{
    let mut fields: Vec<SettingField> = Vec::new();
    let mut i: usize = 0;
    while i < raw.len()
        invariant
            i <= raw.len(),
            settings::field_views(fields@) =~= declared_fields(raw@).take(i as int),
            first_setting_fault(raw@, 0) == first_setting_fault(raw@, i as int),
        decreases raw.len() - i,
    {
        let ghost before = settings::field_views(fields@);
        match parse_setting(&raw[i]) {
            Ok(field) => {
                let ghost view = field@;
                fields.push(field);
                assert(view == declared_fields(raw@)[i as int]);
                assert(settings::field_views(fields@) =~= before.push(view));
            },
            Err(error) => {
                return Err(error);
            },
        }
        i += 1;
    }
    assert(declared_fields(raw@).take(i as int) =~= declared_fields(raw@));
    Ok(SettingsSchema { fields })
}

fn has_setting(schema: &SettingsSchema, key: &str) -> (found: bool)
    ensures
        found == settings::declares(schema@, key@),
{
    let mut i: usize = 0;
    while i < schema.fields.len()
        invariant
            i <= schema.fields.len(),
            forall|k: int| 0 <= k < i ==> (#[trigger] schema@[k]).key != key@,
        decreases schema.fields.len() - i,
    {
        assert(schema@[i as int] == schema.fields@[i as int]@);
        if text::same_text(schema.fields[i].key.as_str(), key) {
            return true;
        }
        i += 1;
    }
    false
}

fn parse_param(key: &String, value: &RawValue, schema: &SettingsSchema) -> (result: Result<
    ParamSource,
    DecoderError,
>)
    ensures
        match (result, param_fault(key@, *value, schema@)) {
            (Ok(source), None) => source@ == source_of(*value),
            (Err(error), Some(fault)) => error@ == fault,
            _ => false,
        },
{
    if let RawValue::Text(text) = value {
        let chars = text::chars_of(text.as_str());
        if chars.len() > 0 && chars[0] == '$' {
            let setting = text::text_from(&chars, 1);
            if !has_setting(schema, setting.as_str()) {
                return Err(
                    DecoderError::UnknownSettingReference { key: key.clone(), setting },
                );
            }
            return Ok(ParamSource::Setting(setting));
        }
    }
    match setting_value(value) {
        Some(setting) => Ok(ParamSource::Literal(setting)),
        None => Err(DecoderError::InvalidEngineParameter { key: key.clone() }),
    }
}

fn parse_params(raw: &KeyMap<RawValue>, schema: &SettingsSchema) -> (result: Result<
    KeyMap<ParamSource>,
    DecoderError,
>)
    ensures
        match (result, first_param_fault(raw.in_order(), schema@, 0)) {
            (Ok(params), None) => params@.map_values(|source: ParamSource| source@)
                == raw@.map_values(|value: RawValue| source_of(value)),
            (Err(error), Some(fault)) => error@ == fault,
            _ => false,
        },
{
    let ghost entries = raw.in_order();
    let ghost source = |value: RawValue| source_of(value);
    let ghost view = |source: ParamSource| source@;
    let mut params: KeyMap<ParamSource> = KeyMap::new();
    let count = raw.len();
    let mut i: usize = 0;
    proof {
        keymap::no_entries(entries, source);
        assert(params@.map_values(view) =~= Map::<Seq<char>, SourceView>::empty());
    }
    while i < count
        invariant
            i <= count,
            count == entries.len(),
            entries == raw.in_order(),
            keymap::keys_ascend(entries),
            source == (|value: RawValue| source_of(value)),
            view == (|source: ParamSource| source@),
            params@.map_values(view) == keymap::entry_map(entries.take(i as int)).map_values(
                source,
            ),
            first_param_fault(entries, schema@, 0) == first_param_fault(entries, schema@, i as int),
        decreases count - i,
    {
        let entry = raw.entry(i);
        match parse_param(&entry.0, &entry.1, schema) {
            Ok(found) => {
                let ghost before = params@;
                params.insert(entry.0.clone(), found);
                proof {
                    keymap::one_entry_more(entries, i as int, source);
                    assert(params@.map_values(view) =~= before.map_values(view).insert(
                        entry.0@,
                        found@,
                    ));
                }
            },
            Err(error) => {
                return Err(error);
            },
        }
        i += 1;
    }
    assert(entries.take(i as int) =~= entries);
    Ok(params)
}

/// The value that a parameter takes. A setting missing from `stored` falls back
/// to its declared default, and one that is not declared to an empty text.
pub open spec fn resolved_source(
    source: SourceView,
    fields: Seq<FieldView>,
    stored: Map<Seq<char>, SettingView>,
) -> SettingView {
    match source {
        SourceView::Literal(value) => value,
        SourceView::Setting(key) => if stored.contains_key(key) {
            stored[key]
        } else {
            match settings::default_from(fields, key, 0) {
                Some(default) => default,
                None => SettingView::Enum(Seq::empty()),
            }
        },
    }
}

/// The engine parameters of a schema for the given settings.
pub open spec fn resolved_params(schema: SchemaView, stored: Map<Seq<char>, SettingView>) -> Map<
    Seq<char>,
    SettingView,
> {
    schema.params.map_values(
        |source: SourceView| resolved_source(source, schema.settings, stored),
    )
}

impl DecoderSchema {
    /// Parse a schema from the contents of a schema file.
    pub fn parse(raw: &RawSchema) -> (schema: Result<Self, DecoderError>)
        ensures
            match (schema, declared_schema(*raw)) {
                (Ok(found), Ok(view)) => found@ == view,
                (Err(error), Err(fault)) => error@ == fault,
                _ => false,
            },
    {
        let inputs = parse_inputs(&raw.inputs);
        let settings = match parse_settings(&raw.settings) {
            Ok(settings) => settings,
            Err(error) => {
                return Err(error);
            },
        };
        let params = match parse_params(&raw.engine_params, &settings) {
            Ok(params) => params,
            Err(error) => {
                return Err(error);
            },
        };
        if engines::engine_by_id(raw.engine.as_str()).is_none() {
            return Err(DecoderError::UnknownEngine { engine: raw.engine.clone() });
        }
        Ok(
            DecoderSchema {
                id: raw.id.clone(),
                name: raw.name.clone(),
                engine: raw.engine.clone(),
                inputs,
                settings,
                params,
            },
        )
    }

    fn resolve_source(&self, source: &ParamSource, stored: &DecoderSettings) -> (value:
        SettingValue)
        ensures
            value@ == resolved_source(source@, self@.settings, stored@),
    {
        match source {
            ParamSource::Setting(key) => match stored.get(key.as_str()) {
                Some(value) => value.clone(),
                None => match self.settings.default_for(key.as_str()) {
                    Some(value) => value.clone(),
                    None => {
                        let empty = String::new();
                        assert(empty@ =~= Seq::<char>::empty());
                        SettingValue::Enum(empty)
                    },
                },
            },
            ParamSource::Literal(value) => value.clone(),
        }
    }

    /// Resolve the engine parameters for the given settings.
    ///
    /// A setting missing from `stored` (e.g. one added to the schema after
    /// the settings were stored in a state file) falls back to the schema
    /// default rather than an empty enum value.
    pub fn resolve_params(&self, stored: &DecoderSettings) -> (params: EngineParams)
        ensures
            settings::setting_views(params@) == resolved_params(self@, stored@),
    {
        let ghost entries = self.params.in_order();
        let ghost resolve = |source: ParamSource|
            resolved_source(source@, self@.settings, stored@);
        let mut params: EngineParams = KeyMap::new();
        let count = self.params.len();
        let mut i: usize = 0;
        proof {
            keymap::no_entries(entries, resolve);
            assert(settings::setting_views(params@) =~= Map::<Seq<char>, SettingView>::empty());
        }
        while i < count
            invariant
                i <= count,
                count == entries.len(),
                entries == self.params.in_order(),
                keymap::keys_ascend(entries),
                resolve == (|source: ParamSource|
                    resolved_source(source@, self@.settings, stored@)),
                settings::setting_views(params@) == keymap::entry_map(
                    entries.take(i as int),
                ).map_values(resolve),
            decreases count - i,
        {
            let entry = self.params.entry(i);
            let value = self.resolve_source(&entry.1, stored);
            let ghost before = params@;
            params.insert(entry.0.clone(), value);
            proof {
                keymap::one_entry_more(entries, i as int, resolve);
                assert(settings::setting_views(params@) =~= settings::setting_views(before).insert(
                    entry.0@,
                    value@,
                ));
            }
            i += 1;
        }
        proof {
            assert(entries.take(i as int) =~= entries);
            assert(settings::setting_views(params@) =~= resolved_params(self@, stored@));
        }
        params
    }
}

/// A [`SignalDecoder`] backed by a schema and an engine.
pub struct SchemaDecoder {
    schema: DecoderSchema,
    engine: Engine,
}

impl SchemaDecoder {
    /// The schema of the decoder.
    pub closed spec fn declared(&self) -> SchemaView {
        self.schema@
    }

    #[verifier::type_invariant]
    spec fn well_formed(self) -> bool {
        engines::engine_named(self.schema@.engine) == Some(self.engine)
    }

    /// The decoder that a schema defines.
    pub fn new(schema: DecoderSchema) -> (decoder: Result<Self, DecoderError>)
        ensures
            match (decoder, engines::engine_named(schema@.engine)) {
                (Ok(found), Some(_)) => found.declared() == schema@,
                (Err(error), None) => error@ == (ErrorView::UnknownEngine {
                    engine: schema@.engine,
                }),
                _ => false,
            },
    {
        match engines::engine_by_id(schema.engine.as_str()) {
            Some(engine) => Ok(SchemaDecoder { schema, engine }),
            None => Err(DecoderError::UnknownEngine { engine: schema.engine }),
        }
    }

    /// The schema of the decoder.
    pub fn schema(&self) -> (schema: &DecoderSchema)
        ensures
            schema@ == self.declared(),
    {
        &self.schema
    }
}

/// The engine of a schema.
pub open spec fn engine_of(schema: SchemaView) -> Engine {
    engines::engine_named(schema.engine).unwrap()
}

impl SignalDecoder for SchemaDecoder {
    open spec fn identifier(&self) -> Seq<char> {
        self.declared().id
    }

    open spec fn title(&self) -> Seq<char> {
        self.declared().name
    }

    open spec fn needs(&self) -> Seq<InputSpecView> {
        self.declared().inputs
    }

    open spec fn fields(&self) -> Seq<FieldView> {
        self.declared().settings
    }

    open spec fn settings_fault(&self, stored: Map<Seq<char>, SettingView>) -> Option<ErrorView> {
        match settings::first_fault(self.declared().settings, stored, 0) {
            Some(fault) => Some(fault),
            None => engine_of(self.declared()).params_fault(
                resolved_params(self.declared(), stored),
            ),
        }
    }

    open spec fn rows_for(&self, stored: Map<Seq<char>, SettingView>) -> nat {
        engine_of(self.declared()).rows_for(resolved_params(self.declared(), stored))
    }

    open spec fn decoded(
        &self,
        stored: Map<Seq<char>, SettingView>,
        inputs: Seq<SignalView>,
    ) -> Result<Seq<RowView>, ErrorView> {
        engine_of(self.declared()).decoded(resolved_params(self.declared(), stored), inputs)
    }

    fn id(&self) -> (id: &str) {
        self.schema.id.as_str()
    }

    fn display_name(&self) -> (name: &str) {
        self.schema.name.as_str()
    }

    fn inputs(&self) -> (inputs: &Vec<InputSpec>) {
        &self.schema.inputs
    }

    fn settings_schema(&self) -> (schema: &SettingsSchema) {
        &self.schema.settings
    }

    fn validate_settings(&self, stored: &DecoderSettings) -> (result: Result<(), DecoderError>) {
        proof {
            use_type_invariant(self);
        }
        match self.schema.settings.validate(stored) {
            Ok(()) => {},
            Err(error) => {
                return Err(error);
            },
        }
        let params = self.schema.resolve_params(stored);
        self.engine.validate(&params)
    }

    fn row_count(&self, inputs: &Vec<DecoderInput>, stored: &DecoderSettings) -> (count: usize) {
        proof {
            use_type_invariant(self);
        }
        let params = self.schema.resolve_params(stored);
        self.engine.row_count(inputs, &params)
    }

    fn decode(&self, ctx: &DecoderContext<'_>) -> (result: Result<DecodedData, DecoderError>) {
        proof {
            use_type_invariant(self);
        }
        let params = self.schema.resolve_params(ctx.settings);
        self.engine.decode(&params, ctx)
    }
}

/// Every parameter of a schema that comes from a setting comes from one that the
/// schema declares.
pub proof fn references_are_declared(raw: RawSchema, key: Seq<char>, setting: Seq<char>)
    requires
        declared_schema(raw) is Ok,
        ({
            let schema = declared_schema(raw)->Ok_0;
            schema.params.contains_key(key) && schema.params[key] == SourceView::Setting(setting)
        }),
    ensures
        settings::declares(declared_schema(raw)->Ok_0.settings, setting),
{
    let entries = raw.engine_params.in_order();
    let fields = declared_fields(raw.settings@);
    let i = keymap::key_index(entries, key);
    no_param_fault(entries, fields, 0, i);
}

/// Where there is no fault, no parameter has one.
pub proof fn no_param_fault(
    params: Seq<(String, RawValue)>,
    fields: Seq<FieldView>,
    from: int,
    i: int,
)
    requires
        first_param_fault(params, fields, from) is None,
        0 <= from <= i < params.len(),
    ensures
        param_fault(params[i].0@, params[i].1, fields) is None,
    decreases i - from,
{
    if from < i {
        no_param_fault(params, fields, from + 1, i);
    }
}

proof fn declared_has_default(fields: Seq<FieldView>, key: Seq<char>, from: int, i: int)
    requires
        0 <= from <= i < fields.len(),
        fields[i].key == key,
    ensures
        settings::default_from(fields, key, from) is Some,
    decreases i - from,
{
    if from < i && fields[from].key != key {
        declared_has_default(fields, key, from + 1, i);
    }
}

/// A parameter that comes from a setting is always the value stored for it or
/// the default declared for it.
pub proof fn parameters_are_settings(
    raw: RawSchema,
    stored: Map<Seq<char>, SettingView>,
    key: Seq<char>,
    setting: Seq<char>,
)
    requires
        declared_schema(raw) is Ok,
        ({
            let schema = declared_schema(raw)->Ok_0;
            schema.params.contains_key(key) && schema.params[key] == SourceView::Setting(setting)
        }),
    ensures
        ({
            let schema = declared_schema(raw)->Ok_0;
            let default = settings::default_from(schema.settings, setting, 0);
            &&& default is Some
            &&& resolved_params(schema, stored).contains_key(key)
            &&& resolved_params(schema, stored)[key] == (if stored.contains_key(setting) {
                stored[setting]
            } else {
                default.unwrap()
            })
        }),
{
    references_are_declared(raw, key, setting);
    let fields = declared_schema(raw)->Ok_0.settings;
    let i = choose|i: int| 0 <= i < fields.len() && (#[trigger] fields[i]).key == setting;
    declared_has_default(fields, setting, 0, i);
}

/// Settings that are not stored count as if their defaults were: without any,
/// the parameters are those of the default settings.
pub proof fn missing_settings_are_defaults(raw: RawSchema)
    requires
        declared_schema(raw) is Ok,
        settings::keys_differ(declared_schema(raw)->Ok_0.settings),
    ensures
        ({
            let schema = declared_schema(raw)->Ok_0;
            let defaults = settings::declared_defaults(schema.settings, schema.settings.len());
            resolved_params(schema, Map::empty()) == resolved_params(schema, defaults)
        }),
{
    let schema = declared_schema(raw)->Ok_0;
    let defaults = settings::declared_defaults(schema.settings, schema.settings.len());
    let without = resolved_params(schema, Map::empty());
    let with = resolved_params(schema, defaults);
    assert forall|key: Seq<char>| #[trigger] without.contains_key(key) implies without[key]
        == with[key] by {
        if let SourceView::Setting(setting) = schema.params[key] {
            references_are_declared(raw, key, setting);
            let fields = schema.settings;
            let i = choose|i: int| 0 <= i < fields.len() && (#[trigger] fields[i]).key == setting;
            settings::defaults_are_declared(fields, i);
        }
    }
    assert(without =~= with);
}

} // verus!
