//! Decoder settings and their declarations.
use vstd::prelude::*;
use crate::decoders::error::{DecoderError, ErrorView};
use crate::keymap::KeyMap;
use crate::text;

verus! {

/// A value of a decoder setting.
#[derive(Debug, PartialEq)]
pub enum SettingValue {
    Bool(bool),
    Integer(i64),
    Enum(String),
}

/// A [`SettingValue`] with its text as a sequence of characters.
#[verifier::ext_equal]
pub enum SettingView {
    Bool(bool),
    Integer(i64),
    Enum(Seq<char>),
}

impl View for SettingValue {
    type V = SettingView;

    open spec fn view(&self) -> SettingView {
        match *self {
            SettingValue::Bool(value) => SettingView::Bool(value),
            SettingValue::Integer(value) => SettingView::Integer(value),
            SettingValue::Enum(value) => SettingView::Enum(value@),
        }
    }
}

impl Clone for SettingValue {
    fn clone(&self) -> (copy: Self)
        ensures
            copy == *self,
    {
        match self {
            SettingValue::Bool(value) => SettingValue::Bool(*value),
            SettingValue::Integer(value) => SettingValue::Integer(*value),
            SettingValue::Enum(value) => SettingValue::Enum(value.clone()),
        }
    }
}

impl SettingValue {
    /// The boolean, if this is one.
    pub fn as_bool(&self) -> (value: Option<bool>)
        ensures
            value == (match self@ {
                SettingView::Bool(b) => Some(b),
                _ => None,
            }),
    {
        match self {
            SettingValue::Bool(value) => Some(*value),
            _ => None,
        }
    }

    /// The integer, if this is one.
    pub fn as_integer(&self) -> (value: Option<i64>)
        ensures
            value == (match self@ {
                SettingView::Integer(n) => Some(n),
                _ => None,
            }),
    {
        match self {
            SettingValue::Integer(value) => Some(*value),
            _ => None,
        }
    }

    /// The enum value, if this is one.
    pub fn as_enum(&self) -> (value: Option<&str>)
        ensures
            match (value, self@) {
                (Some(s), SettingView::Enum(chars)) => s@ == chars,
                (None, SettingView::Enum(_)) => false,
                (Some(_), _) => false,
                (None, _) => true,
            },
    {
        match self {
            SettingValue::Enum(value) => Some(value.as_str()),
            _ => None,
        }
    }
}

/// The views of the values in a map.
pub open spec fn setting_views(values: Map<Seq<char>, SettingValue>) -> Map<Seq<char>, SettingView> {
    values.map_values(|value: SettingValue| value@)
}

/// Whether `value` is stored for `key`.
pub open spec fn holds(
    values: Map<Seq<char>, SettingView>,
    key: Seq<char>,
    value: SettingView,
) -> bool {
    values.contains_key(key) && values[key] == value
}

/// The boolean stored for `key`, or `default`.
pub open spec fn bool_in(
    values: Map<Seq<char>, SettingView>,
    key: Seq<char>,
    default: bool,
) -> bool {
    if values.contains_key(key) {
        match values[key] {
            SettingView::Bool(value) => value,
            _ => default,
        }
    } else {
        default
    }
}

/// The integer stored for `key`, or `default`.
pub open spec fn integer_in(
    values: Map<Seq<char>, SettingView>,
    key: Seq<char>,
    default: i64,
) -> i64 {
    if values.contains_key(key) {
        match values[key] {
            SettingView::Integer(value) => value,
            _ => default,
        }
    } else {
        default
    }
}

/// The enum value stored for `key`, if there is one.
pub open spec fn enum_in(values: Map<Seq<char>, SettingView>, key: Seq<char>) -> Option<Seq<char>> {
    if values.contains_key(key) {
        match values[key] {
            SettingView::Enum(value) => Some(value),
            _ => None,
        }
    } else {
        None
    }
}

/// The enum value stored for `key`, or `default`.
pub open spec fn enum_or(
    values: Map<Seq<char>, SettingView>,
    key: Seq<char>,
    default: Seq<char>,
) -> Seq<char> {
    match enum_in(values, key) {
        Some(value) => value,
        None => default,
    }
}

/// The boolean stored for `key` in `values`, or `default`.
pub fn bool_of(values: &KeyMap<SettingValue>, key: &str, default: bool) -> (value: bool)
    ensures
        value == bool_in(setting_views(values@), key@, default),
{
    match values.get(key) {
        Some(stored) => match stored.as_bool() {
            Some(value) => value,
            None => default,
        },
        None => default,
    }
}

/// The integer stored for `key` in `values`, or `default`.
pub fn integer_of(values: &KeyMap<SettingValue>, key: &str, default: i64) -> (value: i64)
    ensures
        value == integer_in(setting_views(values@), key@, default),
{
    match values.get(key) {
        Some(stored) => match stored.as_integer() {
            Some(value) => value,
            None => default,
        },
        None => default,
    }
}

/// The enum value stored for `key` in `values`, if there is one.
pub fn enum_of(values: &KeyMap<SettingValue>, key: &str) -> (value: Option<String>)
    ensures
        match (value, enum_in(setting_views(values@), key@)) {
            (Some(s), Some(chars)) => s@ == chars,
            (None, None) => true,
            _ => false,
        },
{
    match values.get(key) {
        Some(stored) => match stored.as_enum() {
            Some(value) => Some(value.to_owned()),
            None => None,
        },
        None => None,
    }
}

/// The enum value stored for `key` in `values`, or `default`.
pub fn text_or(values: &KeyMap<SettingValue>, key: &str, default: &str) -> (value: String)
    ensures
        value@ == enum_or(setting_views(values@), key@, default@),
{
    match enum_of(values, key) {
        Some(value) => value,
        None => default.to_owned(),
    }
}

/// Settings of a decoder instance: named values declared by its schema.
#[derive(Debug, PartialEq)]
pub struct DecoderSettings {
    values: KeyMap<SettingValue>,
}

impl View for DecoderSettings {
    type V = Map<Seq<char>, SettingView>;

    closed spec fn view(&self) -> Map<Seq<char>, SettingView> {
        setting_views(self.values@)
    }
}

impl Clone for DecoderSettings {
    fn clone(&self) -> (copy: Self)
        ensures
            copy@ == self@,
    {
        let values = self.values.clone();
        assert(values.in_order() =~= self.values.in_order());
        DecoderSettings { values }
    }
}

impl Default for DecoderSettings {
    fn default() -> (settings: Self)
        ensures
            settings@ == Map::<Seq<char>, SettingView>::empty(),
    {
        let settings = DecoderSettings { values: KeyMap::new() };
        assert(settings@ =~= Map::<Seq<char>, SettingView>::empty());
        settings
    }
}

/// The defaults that the first `n` fields declare. Of two fields with one key,
/// the later one counts.
pub open spec fn declared_defaults(fields: Seq<FieldView>, n: nat) -> Map<Seq<char>, SettingView>
    decreases n,
{
    if n == 0 {
        Map::empty()
    } else {
        let field = fields[n - 1];
        declared_defaults(fields, (n - 1) as nat).insert(field.key, field.default)
    }
}

impl DecoderSettings {
    /// The defaults declared by `schema`.
    pub fn from_schema(schema: &SettingsSchema) -> (settings: Self)
        ensures
            settings@ == declared_defaults(schema@, schema@.len()),
    {
        let mut settings = DecoderSettings::default();
        let mut i: usize = 0;
        while i < schema.fields.len()
            invariant
                i <= schema.fields.len(),
                settings@ == declared_defaults(schema@, i as nat),
            decreases schema.fields.len() - i,
        {
            let field = &schema.fields[i];
            settings.set(field.key.clone(), field.default.clone());
            assert(schema@[i as int] == schema.fields@[i as int]@);
            i += 1;
        }
        settings
    }

    /// The value of the setting with `key`.
    pub fn get(&self, key: &str) -> (value: Option<&SettingValue>)
        ensures
            match value {
                Some(v) => self@.contains_key(key@) && self@[key@] == v@,
                None => !self@.contains_key(key@),
            },
    {
        self.values.get(key)
    }

    /// The boolean setting with `key`, or `default`.
    pub fn get_bool(&self, key: &str, default: bool) -> (value: bool)
        ensures
            value == bool_in(self@, key@, default),
    {
        bool_of(&self.values, key, default)
    }

    /// The integer setting with `key`, or `default`.
    pub fn get_integer(&self, key: &str, default: i64) -> (value: i64)
        ensures
            value == integer_in(self@, key@, default),
    {
        integer_of(&self.values, key, default)
    }

    /// The enum setting with `key`, or `default`.
    pub fn get_enum(&self, key: &str, default: &str) -> (value: String)
        ensures
            value@ == enum_or(self@, key@, default@),
    {
        text_or(&self.values, key, default)
    }

    /// Set the value of the setting with `key`.
    pub fn set(&mut self, key: String, value: SettingValue)
        ensures
            final(self)@ == old(self)@.insert(key@, value@),
    {
        self.values.insert(key, value);
        assert(self@ =~= old(self)@.insert(key@, value@));
    }

    /// All values, in the order of their keys.
    pub fn values(&self) -> (values: &KeyMap<SettingValue>)
        ensures
            setting_views(values@) == self@,
    {
        &self.values
    }
}

/// One option of an enum setting.
#[derive(Debug, PartialEq)]
pub struct SettingOption {
    pub value: String,
    pub label: String,
}

/// A [`SettingOption`] with its texts as sequences of characters.
#[verifier::ext_equal]
pub struct OptionView {
    pub value: Seq<char>,
    pub label: Seq<char>,
}

impl View for SettingOption {
    type V = OptionView;

    open spec fn view(&self) -> OptionView {
        OptionView { value: self.value@, label: self.label@ }
    }
}

impl Clone for SettingOption {
    fn clone(&self) -> (copy: Self)
        ensures
            copy@ == self@,
    {
        SettingOption { value: self.value.clone(), label: self.label.clone() }
    }
}

/// The kind of a setting, which determines how it is edited.
#[derive(Debug, PartialEq)]
pub enum SettingKind {
    Bool,
    Integer { min: i64, max: i64 },
    Enum { options: Vec<SettingOption> },
}

/// A [`SettingKind`] with its texts as sequences of characters.
#[verifier::ext_equal]
pub enum KindView {
    Bool,
    Integer { min: i64, max: i64 },
    Enum { options: Seq<OptionView> },
}

/// The views of a list of options.
pub open spec fn option_views(options: Seq<SettingOption>) -> Seq<OptionView> {
    Seq::new(options.len(), |i: int| options[i]@)
}

impl View for SettingKind {
    type V = KindView;

    open spec fn view(&self) -> KindView {
        match *self {
            SettingKind::Bool => KindView::Bool,
            SettingKind::Integer { min, max } => KindView::Integer { min, max },
            SettingKind::Enum { options } => KindView::Enum { options: option_views(options@) },
        }
    }
}

impl Clone for SettingKind {
    fn clone(&self) -> (copy: Self)
        ensures
            copy@ == self@,
    {
        match self {
            SettingKind::Bool => SettingKind::Bool,
            SettingKind::Integer { min, max } => SettingKind::Integer { min: *min, max: *max },
            SettingKind::Enum { options } => {
                let copied = options.clone();
                assert(option_views(copied@) =~= option_views(options@));
                SettingKind::Enum { options: copied }
            },
        }
    }
}

/// One setting declared by a decoder schema.
#[derive(Debug, PartialEq)]
pub struct SettingField {
    pub key: String,
    pub label: String,
    pub default: SettingValue,
    pub kind: SettingKind,
}

/// A [`SettingField`] with its texts as sequences of characters.
#[verifier::ext_equal]
pub struct FieldView {
    pub key: Seq<char>,
    pub label: Seq<char>,
    pub default: SettingView,
    pub kind: KindView,
}

impl View for SettingField {
    type V = FieldView;

    open spec fn view(&self) -> FieldView {
        FieldView {
            key: self.key@,
            label: self.label@,
            default: self.default@,
            kind: self.kind@,
        }
    }
}

impl Clone for SettingField {
    fn clone(&self) -> (copy: Self)
        ensures
            copy@ == self@,
    {
        SettingField {
            key: self.key.clone(),
            label: self.label.clone(),
            default: self.default.clone(),
            kind: self.kind.clone(),
        }
    }
}

/// The settings declared by a decoder schema.
#[derive(Debug, PartialEq)]
pub struct SettingsSchema {
    pub fields: Vec<SettingField>,
}

/// The views of a list of fields.
pub open spec fn field_views(fields: Seq<SettingField>) -> Seq<FieldView> {
    Seq::new(fields.len(), |i: int| fields[i]@)
}

impl View for SettingsSchema {
    type V = Seq<FieldView>;

    open spec fn view(&self) -> Seq<FieldView> {
        field_views(self.fields@)
    }
}

impl Clone for SettingsSchema {
    fn clone(&self) -> (copy: Self)
        ensures
            copy@ == self@,
    {
        let fields = self.fields.clone();
        assert(field_views(fields@) =~= field_views(self.fields@));
        SettingsSchema { fields }
    }
}

impl Default for SettingsSchema {
    fn default() -> (schema: Self)
        ensures
            schema@ == Seq::<FieldView>::empty(),
    {
        let schema = SettingsSchema { fields: Vec::new() };
        assert(schema@ =~= Seq::<FieldView>::empty());
        schema
    }
}

/// Whether `key` is the key of a field.
pub open spec fn declares(fields: Seq<FieldView>, key: Seq<char>) -> bool {
    exists|i: int| 0 <= i < fields.len() && (#[trigger] fields[i]).key == key
}

/// The default of the first field from position `from` on that has `key`.
pub open spec fn default_from(fields: Seq<FieldView>, key: Seq<char>, from: int) -> Option<SettingView>
    decreases fields.len() - from,
{
    if from < 0 || from >= fields.len() {
        None
    } else if fields[from].key == key {
        Some(fields[from].default)
    } else {
        default_from(fields, key, from + 1)
    }
}

/// Whether `value` is the value of an option.
pub open spec fn is_option(options: Seq<OptionView>, value: Seq<char>) -> bool {
    exists|i: int| 0 <= i < options.len() && (#[trigger] options[i]).value == value
}

/// What is wrong with the value of one setting, if anything.
pub open spec fn field_fault(
    field: FieldView,
    settings: Map<Seq<char>, SettingView>,
) -> Option<ErrorView> {
    if !settings.contains_key(field.key) {
        Some(ErrorView::MissingSetting { label: field.label })
    } else {
        match (field.kind, settings[field.key]) {
            (KindView::Bool, SettingView::Bool(_)) => None,
            (KindView::Integer { min, max }, SettingView::Integer(value)) => if min <= value
                <= max {
                None
            } else {
                Some(ErrorView::SettingOutOfRange { label: field.label, min, max })
            },
            (KindView::Enum { options }, SettingView::Enum(value)) => if is_option(options, value) {
                None
            } else {
                Some(ErrorView::InvalidSettingValue { value, label: field.label })
            },
            _ => Some(ErrorView::WrongSettingType { label: field.label }),
        }
    }
}

/// The fault of the first field, from position `from` on, that has one.
pub open spec fn first_fault(
    fields: Seq<FieldView>,
    settings: Map<Seq<char>, SettingView>,
    from: int,
) -> Option<ErrorView>
    decreases fields.len() - from,
{
    if from < 0 || from >= fields.len() {
        None
    } else if field_fault(fields[from], settings) is Some {
        field_fault(fields[from], settings)
    } else {
        first_fault(fields, settings, from + 1)
    }
}

fn has_option(options: &Vec<SettingOption>, value: &String) -> (found: bool)
    ensures
        found == is_option(option_views(options@), value@),
{
    let mut i: usize = 0;
    while i < options.len()
        invariant
            i <= options.len(),
            forall|k: int| 0 <= k < i ==> (#[trigger] options@[k]).value@ != value@,
        decreases options.len() - i,
    {
        if options[i].value == *value {
            assert(option_views(options@)[i as int].value == value@);
            return true;
        }
        i += 1;
    }
    false
}

impl SettingsSchema {
    /// The default settings.
    pub fn defaults(&self) -> (settings: DecoderSettings)
        ensures
            settings@ == declared_defaults(self@, self@.len()),
    {
        DecoderSettings::from_schema(self)
    }

    /// The default value declared for the setting with `key`, if any.
    pub fn default_for(&self, key: &str) -> (default: Option<&SettingValue>)
        ensures
            match (default, default_from(self@, key@, 0)) {
                (Some(value), Some(view)) => value@ == view,
                (None, None) => true,
                _ => false,
            },
    {
        let mut i: usize = 0;
        while i < self.fields.len()
            invariant
                i <= self.fields.len(),
                default_from(self@, key@, 0) == default_from(self@, key@, i as int),
            decreases self.fields.len() - i,
        {
            assert(self@[i as int] == self.fields@[i as int]@);
            if text::same_text(self.fields[i].key.as_str(), key) {
                return Some(&self.fields[i].default);
            }
            i += 1;
        }
        None
    }

    /// Validate settings against the schema: every declared setting has a value
    /// of its type, within its bounds or among its options. The error is that of
    /// the first setting that fails.
    pub fn validate(&self, settings: &DecoderSettings) -> (result: Result<(), DecoderError>)
        ensures
            match (result, first_fault(self@, settings@, 0)) {
                (Ok(()), None) => true,
                (Err(error), Some(fault)) => error@ == fault,
                _ => false,
            },
    {
        let mut i: usize = 0;
        while i < self.fields.len()
            invariant
                i <= self.fields.len(),
                first_fault(self@, settings@, 0) == first_fault(self@, settings@, i as int),
            decreases self.fields.len() - i,
        {
            let field = &self.fields[i];
            assert(self@[i as int] == field@);
            match settings.get(field.key.as_str()) {
                None => {
                    return Err(DecoderError::MissingSetting { label: field.label.clone() });
                },
                Some(value) => match (&field.kind, value) {
                    (SettingKind::Bool, SettingValue::Bool(_)) => {},
                    (SettingKind::Integer { min, max }, SettingValue::Integer(value)) => {
                        if *value < *min || *value > *max {
                            return Err(
                                DecoderError::SettingOutOfRange {
                                    label: field.label.clone(),
                                    min: *min,
                                    max: *max,
                                },
                            );
                        }
                    },
                    (SettingKind::Enum { options }, SettingValue::Enum(value)) => {
                        if !has_option(options, value) {
                            return Err(
                                DecoderError::InvalidSettingValue {
                                    value: value.clone(),
                                    label: field.label.clone(),
                                },
                            );
                        }
                    },
                    _ => {
                        return Err(DecoderError::WrongSettingType { label: field.label.clone() });
                    },
                },
            }
            i += 1;
        }
        Ok(())
    }
}

/// Settings are valid exactly when no declared setting has a fault.
pub proof fn valid_means_no_fault(fields: Seq<FieldView>, settings: Map<Seq<char>, SettingView>)
    ensures
        first_fault(fields, settings, 0) is None <==> forall|i: int|
            0 <= i < fields.len() ==> field_fault(#[trigger] fields[i], settings) is None,
{
    valid_from(fields, settings, 0);
}

proof fn valid_from(fields: Seq<FieldView>, settings: Map<Seq<char>, SettingView>, from: int)
    requires
        0 <= from,
    ensures
        first_fault(fields, settings, from) is None <==> forall|i: int|
            from <= i < fields.len() ==> field_fault(#[trigger] fields[i], settings) is None,
    decreases fields.len() - from,
{
    if from < fields.len() {
        valid_from(fields, settings, from + 1);
        if field_fault(fields[from], settings) is None {
            assert forall|i: int|
                from <= i < fields.len() && first_fault(fields, settings, from + 1)
                    is None implies field_fault(#[trigger] fields[i], settings) is None by {
                if i > from {
                    assert(from + 1 <= i);
                }
            }
        }
    }
}

/// Whether no two settings have one key.
pub open spec fn keys_differ(fields: Seq<FieldView>) -> bool {
    forall|i: int, j: int|
        0 <= i < j < fields.len() ==> (#[trigger] fields[i]).key != (#[trigger] fields[j]).key
}

proof fn default_of_field(fields: Seq<FieldView>, n: nat, i: int)
    requires
        keys_differ(fields),
        0 <= i < n <= fields.len(),
    ensures
        declared_defaults(fields, n).contains_key(fields[i].key),
        declared_defaults(fields, n)[fields[i].key] == fields[i].default,
    decreases n,
{
    if i < n - 1 {
        default_of_field(fields, (n - 1) as nat, i);
        assert(fields[i].key != fields[n - 1].key);
    }
}

proof fn default_is_found(fields: Seq<FieldView>, i: int, from: int)
    requires
        keys_differ(fields),
        0 <= from <= i < fields.len(),
    ensures
        default_from(fields, fields[i].key, from) == Some(fields[i].default),
    decreases i - from,
{
    if from < i {
        assert(fields[from].key != fields[i].key);
        default_is_found(fields, i, from + 1);
    }
}

/// The default settings hold the default of every declared setting, and that is
/// the one that is found for its key.
pub proof fn defaults_are_declared(fields: Seq<FieldView>, i: int)
    requires
        keys_differ(fields),
        0 <= i < fields.len(),
    ensures
        declared_defaults(fields, fields.len()).contains_key(fields[i].key),
        declared_defaults(fields, fields.len())[fields[i].key] == fields[i].default,
        default_from(fields, fields[i].key, 0) == Some(fields[i].default),
{
    default_of_field(fields, fields.len(), i);
    default_is_found(fields, i, 0);
}

/// The default settings are valid where every default is one that its own
/// setting accepts.
pub proof fn defaults_are_valid(fields: Seq<FieldView>)
    requires
        keys_differ(fields),
        forall|i: int|
            0 <= i < fields.len() ==> field_fault(
                #[trigger] fields[i],
                map![fields[i].key => fields[i].default],
            ) is None,
    ensures
        first_fault(fields, declared_defaults(fields, fields.len()), 0) is None,
{
    let defaults = declared_defaults(fields, fields.len());
    assert forall|i: int| 0 <= i < fields.len() implies field_fault(
        #[trigger] fields[i],
        defaults,
    ) is None by {
        defaults_are_declared(fields, i);
        let own = map![fields[i].key => fields[i].default];
        assert(own.contains_key(fields[i].key));
        assert(own[fields[i].key] == defaults[fields[i].key]);
    }
    valid_means_no_fault(fields, defaults);
}

} // verus!
