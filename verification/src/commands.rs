//! The commands that are run on a waveform, as far as they add decoders or
//! change how these are displayed.
use vstd::prelude::*;
#[allow(unused_imports)]
use vstd::string::*;
use crate::decoders::decoder::SignalDecoder;
use crate::decoders::error;
use crate::decoders::error::{DecoderError, ErrorView};
use crate::decoders::input;
use crate::decoders::input::{DecoderInput, InputSpec, InputSpecView, InputView, VariableRef};
use crate::decoders::settings;
use crate::decoders::settings::{
    DecoderSettings, FieldView, KindView, SettingField, SettingKind, SettingValue, SettingView,
    SettingsSchema,
};
use crate::decoders::value::ValueFormat;
use crate::displayed::{
    AnalogRenderStyle, AnalogSettings, AnalogYAxisScale, DisplayedDecoder, DisplayedView,
};
use crate::message::{ChoiceView, DecoderChoice};
use crate::text;

verus! {

/// How far a command text has been read.
#[verifier::ext_equal]
pub struct Reading {
    /// The commands that are complete, each as its words.
    pub commands: Seq<Seq<Seq<char>>>,
    /// The complete words of the present command.
    pub words: Seq<Seq<char>>,
    /// The present word.
    pub word: Seq<char>,
    /// Whether the rest of the line is a comment.
    pub comment: bool,
}

/// Whether a character separates words.
pub open spec fn is_blank(c: char) -> bool {
    c == ' ' || c == '\t' || c == '\r'
}

/// The present word is complete.
pub open spec fn after_word(reading: Reading) -> Reading {
    if reading.word.len() == 0 {
        reading
    } else {
        Reading { words: reading.words.push(reading.word), word: Seq::empty(), ..reading }
    }
}

/// The present command is complete. One without words is none.
pub open spec fn after_command(reading: Reading) -> Reading {
    let read = after_word(reading);
    Reading {
        commands: if read.words.len() == 0 {
            read.commands
        } else {
            read.commands.push(read.words)
        },
        words: Seq::empty(),
        word: Seq::empty(),
        comment: false,
    }
}

/// The next character: commands are separated by lines or `;`, and a `#` where
/// a command would begin starts a comment up to the end of the line.
pub open spec fn after_char(reading: Reading, c: char) -> Reading {
    if c == '\n' {
        after_command(reading)
    } else if reading.comment {
        reading
    } else if c == ';' {
        after_command(reading)
    } else if is_blank(c) {
        after_word(reading)
    } else if c == '#' && reading.words.len() == 0 && reading.word.len() == 0 {
        Reading { comment: true, ..reading }
    } else {
        Reading { word: reading.word.push(c), ..reading }
    }
}

/// The first `n` characters have been read.
pub open spec fn read_upto(text: Seq<char>, n: nat) -> Reading
    decreases n,
{
    if n == 0 {
        Reading {
            commands: Seq::empty(),
            words: Seq::empty(),
            word: Seq::empty(),
            comment: false,
        }
    } else {
        after_char(read_upto(text, (n - 1) as nat), text[n - 1])
    }
}

/// The commands in a text, each as its words.
pub open spec fn commands_in(text: Seq<char>) -> Seq<Seq<Seq<char>>> {
    after_command(read_upto(text, text.len())).commands
}

/// Whether this is a word: it is not empty, and holds no blank and no separator
/// of commands.
pub open spec fn is_word(word: Seq<char>) -> bool {
    &&& word.len() > 0
    &&& forall|i: int|
        0 <= i < word.len() ==> !is_blank(#[trigger] word[i]) && word[i] != '\n' && word[i] != ';'
}

spec fn all_words(words: Seq<Seq<char>>) -> bool {
    forall|i: int| 0 <= i < words.len() ==> is_word(#[trigger] words[i])
}

spec fn sound(reading: Reading) -> bool {
    &&& forall|i: int|
        0 <= i < reading.commands.len() ==> (#[trigger] reading.commands[i]).len() > 0 && all_words(
            reading.commands[i],
        )
    &&& all_words(reading.words)
    &&& reading.word.len() > 0 ==> is_word(reading.word)
}

proof fn reading_is_sound(text: Seq<char>, n: nat)
    requires
        n <= text.len(),
    ensures
        sound(read_upto(text, n)),
    decreases n,
{
    if n > 0 {
        reading_is_sound(text, (n - 1) as nat);
    }
}

/// No command is empty, and none of its words is empty or holds a blank, a line
/// end or a `;`.
pub proof fn commands_are_words(text: Seq<char>, i: int, k: int)
    requires
        0 <= i < commands_in(text).len(),
    ensures
        commands_in(text)[i].len() > 0,
        0 <= k < commands_in(text)[i].len() ==> is_word(commands_in(text)[i][k]),
{
    reading_is_sound(text, text.len());
    assert(sound(after_command(read_upto(text, text.len()))));
}

/// The words of a list of commands.
pub open spec fn command_words(commands: Seq<Vec<String>>) -> Seq<Seq<Seq<char>>> {
    Seq::new(commands.len(), |i: int| text::texts(commands[i]@))
}

/// Split a text into commands, each as its words.
pub fn split_commands(text: &str) -> (commands: Vec<Vec<String>>)
    ensures
        command_words(commands@) == commands_in(text@),
{
    let chars = text::chars_of(text);
    let mut commands: Vec<Vec<String>> = Vec::new();
    let mut words: Vec<String> = Vec::new();
    let mut word = String::new();
    let mut comment = false;
    let mut i: usize = 0;
    proof {
        assert(command_words(commands@) =~= Seq::<Seq<Seq<char>>>::empty());
        assert(text::texts(words@) =~= Seq::<Seq<char>>::empty());
        assert(word@ =~= Seq::<char>::empty());
    }
    loop
        invariant_except_break
            ({
                let read = read_upto(text@, i as nat);
                &&& command_words(commands@) == read.commands
                &&& text::texts(words@) == read.words
                &&& word@ == read.word
                &&& comment == read.comment
            }),
        invariant
            chars@ == text@,
            i <= chars.len(),
        ensures
            command_words(commands@) == commands_in(text@),
        decreases chars.len() - i,
    {
        let ended = i == chars.len();
        let c = if ended {
            '\n'
        } else {
            chars[i]
        };
        let ghost before = read_upto(text@, i as nat);
        if c == '\n' || (!comment && c == ';') {
            if !word.as_str().is_empty() {
                words.push(word);
                word = String::new();
                assert(text::texts(words@) =~= before.words.push(before.word));
            }
            assert(text::texts(words@) == after_word(before).words);
            if words.len() > 0 {
                let ghost kept = text::texts(words@);
                commands.push(words);
                words = Vec::new();
                assert(command_words(commands@) =~= before.commands.push(kept));
            }
            comment = false;
            proof {
                assert(word@ =~= Seq::<char>::empty());
                assert(text::texts(words@) =~= Seq::<Seq<char>>::empty());
                assert(command_words(commands@) == after_command(before).commands);
            }
            if ended {
                break;
            }
        } else if comment {
        } else if c == ' ' || c == '\t' || c == '\r' {
            if !word.as_str().is_empty() {
                words.push(word);
                word = String::new();
                assert(text::texts(words@) =~= before.words.push(before.word));
                assert(word@ =~= Seq::<char>::empty());
            }
        } else if c == '#' && words.len() == 0 && word.as_str().is_empty() {
            comment = true;
        } else {
            word.push(c);
        }
        i += 1;
    }
    commands
}

/// Why a decoder was not added.
#[derive(Debug)]
pub enum CommandError {
    /// There are more signals than the decoder has inputs.
    TooManySignals { signal: String },
    /// A required input has no signal.
    MissingInput { role: String },
    /// The decoder has no such setting.
    UnknownSetting { key: String },
    /// An option or a setting cannot have this value.
    InvalidValue { key: String, value: String },
    /// The settings are not valid.
    InvalidSettings { reason: DecoderError },
}

/// A [`CommandError`] with its texts as sequences of characters.
#[verifier::ext_equal]
pub enum CommandErrorView {
    TooManySignals { signal: Seq<char> },
    MissingInput { role: Seq<char> },
    UnknownSetting { key: Seq<char> },
    InvalidValue { key: Seq<char>, value: Seq<char> },
    InvalidSettings { reason: ErrorView },
}

impl View for CommandError {
    type V = CommandErrorView;

    open spec fn view(&self) -> CommandErrorView {
        match *self {
            CommandError::TooManySignals { signal } => CommandErrorView::TooManySignals {
                signal: signal@,
            },
            CommandError::MissingInput { role } => CommandErrorView::MissingInput { role: role@ },
            CommandError::UnknownSetting { key } => CommandErrorView::UnknownSetting { key: key@ },
            CommandError::InvalidValue { key, value } => CommandErrorView::InvalidValue {
                key: key@,
                value: value@,
            },
            CommandError::InvalidSettings { reason } => CommandErrorView::InvalidSettings {
                reason: reason@,
            },
        }
    }
}

/// An error in words.
pub open spec fn command_message(error: CommandErrorView) -> Seq<char> {
    match error {
        CommandErrorView::TooManySignals { signal } => "no decoder input is left for signal '"@
            + signal + "'"@,
        CommandErrorView::MissingInput { role } => "no signal given for decoder input '"@ + role
            + "'"@,
        CommandErrorView::UnknownSetting { key } => "unknown decoder setting '"@ + key + "'"@,
        CommandErrorView::InvalidValue { key, value } => "invalid value '"@ + value + "' for '"@
            + key + "'"@,
        CommandErrorView::InvalidSettings { reason } => error::error_message(reason),
    }
}

fn quoted(before: &str, quote: &str) -> (words: String)
    ensures
        words@ == before@ + quote@ + "'"@,
{
    let mut words = before.to_owned();
    words.append(quote);
    words.append("'");
    words
}

impl CommandError {
    /// This error in words.
    pub fn message(&self) -> (words: String)
        ensures
            words@ == command_message(self@),
    {
        match self {
            CommandError::TooManySignals { signal } => quoted(
                "no decoder input is left for signal '",
                signal.as_str(),
            ),
            CommandError::MissingInput { role } => quoted(
                "no signal given for decoder input '",
                role.as_str(),
            ),
            CommandError::UnknownSetting { key } => quoted(
                "unknown decoder setting '",
                key.as_str(),
            ),
            CommandError::InvalidValue { key, value } => {
                let mut words = "invalid value '".to_owned();
                words.append(value.as_str());
                words.append("' for '");
                quoted(words.as_str(), key.as_str())
            },
            CommandError::InvalidSettings { reason } => reason.message(),
        }
    }
}

/// The number that decimal digits stand for.
pub open spec fn digits_value(digits: Seq<char>) -> int
    decreases digits.len(),
{
    if digits.len() == 0 {
        0
    } else {
        10 * digits_value(digits.drop_last()) + (digits.last() as int - '0' as int)
    }
}

/// Whether these are decimal digits, at least one.
pub open spec fn are_digits(digits: Seq<char>) -> bool {
    digits.len() > 0 && forall|i: int|
        0 <= i < digits.len() ==> '0' <= #[trigger] digits[i] && digits[i] <= '9'
}

/// The integer that a text names: decimal digits, with a sign or without one,
/// within the range of 64 bits.
pub open spec fn named_integer(text: Seq<char>) -> Option<int> {
    let signed = text.len() > 0 && (text[0] == '-' || text[0] == '+');
    let digits = if signed {
        text.skip(1)
    } else {
        text
    };
    let value = if signed && text[0] == '-' {
        -digits_value(digits)
    } else {
        digits_value(digits)
    };
    if are_digits(digits) && i64::MIN <= value <= i64::MAX {
        Some(value)
    } else {
        None
    }
}

proof fn more_digits(digits: Seq<char>, n: int)
    requires
        are_digits(digits),
        0 <= n <= digits.len(),
    ensures
        0 <= digits_value(digits.take(n)) <= digits_value(digits),
    decreases digits.len(),
{
    if n == digits.len() {
        assert(digits.take(n) =~= digits);
        if n > 1 {
            more_digits(digits.drop_last(), n - 1);
        } else {
            assert(digits_value(digits.drop_last()) == 0);
        }
    } else if digits.len() > 1 {
        assert(digits.drop_last().take(n) =~= digits.take(n));
        more_digits(digits.drop_last(), n);
    } else {
        assert(digits.take(0) =~= Seq::<char>::empty());
        assert(digits_value(digits.drop_last()) == 0);
    }
}

/// Read an integer.
pub fn parse_integer(name: &str) -> (value: Option<i64>)
    ensures
        match (value, named_integer(name@)) {
            (Some(value), Some(named)) => value == named,
            (None, None) => true,
            _ => false,
        },
{
    let chars = text::chars_of(name);
    let signed = chars.len() > 0 && (chars[0] == '-' || chars[0] == '+');
    let start: usize = if signed {
        1
    } else {
        0
    };
    let ghost digits = if signed {
        name@.skip(1)
    } else {
        name@
    };
    if chars.len() == start {
        return None;
    }
    let mut total: u64 = 0;
    let mut i: usize = start;
    proof {
        assert(digits.take(0) =~= Seq::<char>::empty());
    }
    while i < chars.len()
        invariant
            start <= i <= chars.len(),
            chars@ == name@,
            signed == (name@.len() > 0 && (name@[0] == '-' || name@[0] == '+')),
            start == (if signed {
                1int
            } else {
                0int
            }),
            digits == (if signed {
                name@.skip(1)
            } else {
                name@
            }),
            digits.len() == chars.len() - start,
            digits.len() > 0,
            forall|k: int| 0 <= k < i - start ==> '0' <= #[trigger] digits[k] && digits[k] <= '9',
            total == digits_value(digits.take(i - start)),
            total <= 0x8000_0000_0000_0000,
        decreases chars.len() - i,
    {
        let c = chars[i];
        assert(digits[i - start] == c);
        if c < '0' || c > '9' {
            assert(!are_digits(digits));
            return None;
        }
        let digit: u64 = c as u64 - '0' as u64;
        proof {
            assert(digits.take(i - start + 1).drop_last() =~= digits.take(i - start));
            assert(digits.take(i - start + 1).last() == c);
        }
        if total > (0x8000_0000_0000_0000 - digit) / 10 {
            proof {
                assert(10 * total + digit > 0x8000_0000_0000_0000);
                if are_digits(digits) {
                    more_digits(digits, i - start + 1);
                }
            }
            return None;
        }
        total = 10 * total + digit;
        i += 1;
    }
    assert(digits.take(i - start) =~= digits);
    if signed && chars[0] == '-' {
        if total == 0x8000_0000_0000_0000 {
            Some(i64::MIN)
        } else {
            Some(-(total as i64))
        }
    } else if total == 0x8000_0000_0000_0000 {
        None
    } else {
        Some(total as i64)
    }
}

/// The decoder that a command describes, as far as its arguments have been
/// read.
#[verifier::ext_equal]
pub struct Described {
    pub inputs: Seq<InputView>,
    pub settings: Map<Seq<char>, SettingView>,
    pub show_samples: bool,
    pub value_format: ValueFormat,
    pub style: Option<AnalogRenderStyle>,
    pub scale: AnalogYAxisScale,
}

/// The value that a text names for a setting of a kind.
pub open spec fn named_setting(kind: KindView, value: Seq<char>) -> Option<SettingView> {
    match kind {
        KindView::Bool => if value == "true"@ {
            Some(SettingView::Bool(true))
        } else if value == "false"@ {
            Some(SettingView::Bool(false))
        } else {
            None
        },
        KindView::Integer { .. } => match named_integer(value) {
            Some(number) => Some(SettingView::Integer(number as i64)),
            None => None,
        },
        KindView::Enum { .. } => Some(SettingView::Enum(value)),
    }
}

/// The first setting with a key, from position `from` on.
pub open spec fn field_with(fields: Seq<FieldView>, key: Seq<char>, from: int) -> Option<FieldView>
    decreases fields.len() - from,
{
    if from < 0 || from >= fields.len() {
        None
    } else if fields[from].key == key {
        Some(fields[from])
    } else {
        field_with(fields, key, from + 1)
    }
}

/// Whether samples are shown.
pub open spec fn named_samples(value: Seq<char>) -> Option<bool> {
    if value == "on"@ {
        Some(true)
    } else if value == "off"@ {
        Some(false)
    } else {
        None
    }
}

/// The format of sample values.
pub open spec fn named_format(value: Seq<char>) -> Option<ValueFormat> {
    if value == "dec"@ {
        Some(ValueFormat::Decimal)
    } else if value == "hex"@ {
        Some(ValueFormat::Hexadecimal)
    } else {
        None
    }
}

/// The style of analog rendering, if there is to be any.
pub open spec fn named_style(value: Seq<char>) -> Option<Option<AnalogRenderStyle>> {
    if value == "off"@ {
        Some(None)
    } else if value == "step"@ {
        Some(Some(AnalogRenderStyle::Step))
    } else if value == "interpolated"@ {
        Some(Some(AnalogRenderStyle::Interpolated))
    } else {
        None
    }
}

/// The scale of analog rendering.
pub open spec fn named_scale(value: Seq<char>) -> Option<AnalogYAxisScale> {
    if value == "viewport"@ {
        Some(AnalogYAxisScale::Viewport)
    } else if value == "global"@ {
        Some(AnalogYAxisScale::Global)
    } else if value == "type_limits"@ {
        Some(AnalogYAxisScale::TypeLimits)
    } else {
        None
    }
}

/// What an option or a setting changes.
pub open spec fn with_option(
    described: Described,
    fields: Seq<FieldView>,
    key: Seq<char>,
    value: Seq<char>,
) -> Result<Described, CommandErrorView> {
    let invalid = CommandErrorView::InvalidValue { key, value };
    if key == "samples"@ {
        match named_samples(value) {
            Some(show_samples) => Ok(Described { show_samples, ..described }),
            None => Err(invalid),
        }
    } else if key == "format"@ {
        match named_format(value) {
            Some(value_format) => Ok(Described { value_format, ..described }),
            None => Err(invalid),
        }
    } else if key == "analog"@ {
        match named_style(value) {
            Some(style) => Ok(Described { style, ..described }),
            None => Err(invalid),
        }
    } else if key == "analog_scale"@ {
        match named_scale(value) {
            Some(scale) => Ok(Described { scale, ..described }),
            None => Err(invalid),
        }
    } else {
        match field_with(fields, key, 0) {
            Some(field) => match named_setting(field.kind, value) {
                Some(setting) => Ok(
                    Described { settings: described.settings.insert(key, setting), ..described },
                ),
                None => Err(invalid),
            },
            None => Err(CommandErrorView::UnknownSetting { key }),
        }
    }
}

/// What an argument changes: `key=value` sets an option or a setting, and
/// anything else is the signal of the next input.
pub open spec fn with_argument(
    described: Described,
    needs: Seq<InputSpecView>,
    fields: Seq<FieldView>,
    argument: Seq<char>,
) -> Result<Described, CommandErrorView> {
    if argument.contains('=') {
        let at = argument.index_of_first('=').unwrap();
        with_option(described, fields, argument.take(at), argument.skip(at + 1))
    } else if described.inputs.len() < needs.len() {
        Ok(
            Described {
                inputs: described.inputs.push(
                    InputView {
                        role: needs[described.inputs.len() as int].role,
                        variable: input::named_variable(argument),
                    },
                ),
                ..described
            },
        )
    } else {
        Err(CommandErrorView::TooManySignals { signal: argument })
    }
}

/// The decoder that the first `n` arguments describe.
pub open spec fn described_by(
    needs: Seq<InputSpecView>,
    fields: Seq<FieldView>,
    scale: AnalogYAxisScale,
    arguments: Seq<Seq<char>>,
    n: nat,
) -> Result<Described, CommandErrorView>
    decreases n,
{
    if n == 0 {
        Ok(
            Described {
                inputs: Seq::empty(),
                settings: settings::declared_defaults(fields, fields.len()),
                show_samples: true,
                value_format: ValueFormat::Decimal,
                style: None,
                scale,
            },
        )
    } else {
        match described_by(needs, fields, scale, arguments, (n - 1) as nat) {
            Ok(described) => with_argument(described, needs, fields, arguments[n - 1]),
            Err(fault) => Err(fault),
        }
    }
}

/// The first required input, from position `from` on.
pub open spec fn first_required(needs: Seq<InputSpecView>, from: int) -> Option<Seq<char>>
    decreases needs.len() - from,
{
    if from < 0 || from >= needs.len() {
        None
    } else if needs[from].required {
        Some(needs[from].role)
    } else {
        first_required(needs, from + 1)
    }
}

/// The decoder that a command adds: every argument must be understood, every
/// required input must have a signal, and the settings must be valid.
pub open spec fn added<D: SignalDecoder>(
    decoder: &D,
    scale: AnalogYAxisScale,
    arguments: Seq<Seq<char>>,
) -> Result<ChoiceView, CommandErrorView> {
    match described_by(decoder.needs(), decoder.fields(), scale, arguments, arguments.len()) {
        Err(fault) => Err(fault),
        Ok(described) => match (
            first_required(decoder.needs(), described.inputs.len() as int),
            decoder.settings_fault(described.settings),
        ) {
            (Some(role), _) => Err(CommandErrorView::MissingInput { role }),
            (None, Some(reason)) => Err(CommandErrorView::InvalidSettings { reason }),
            (None, None) => Ok(
                ChoiceView {
                    decoder: decoder.identifier(),
                    inputs: described.inputs,
                    settings: described.settings,
                    show_samples: described.show_samples,
                    value_format: described.value_format,
                    analog: match described.style {
                        Some(render_style) => Some(
                            AnalogSettings { render_style, y_axis_scale: described.scale },
                        ),
                        None => None,
                    },
                },
            ),
        },
    }
}

struct Description {
    inputs: Vec<DecoderInput>,
    settings: DecoderSettings,
    show_samples: bool,
    value_format: ValueFormat,
    style: Option<AnalogRenderStyle>,
    scale: AnalogYAxisScale,
}

impl View for Description {
    type V = Described;

    closed spec fn view(&self) -> Described {
        Described {
            inputs: input::input_views(self.inputs@),
            settings: self.settings@,
            show_samples: self.show_samples,
            value_format: self.value_format,
            style: self.style,
            scale: self.scale,
        }
    }
}

fn find_field<'a>(schema: &'a SettingsSchema, key: &str) -> (field: Option<&'a SettingField>)
    ensures
        match (field, field_with(schema@, key@, 0)) {
            (Some(field), Some(view)) => field@ == view,
            (None, None) => true,
            _ => false,
        },
{
    let mut i: usize = 0;
    while i < schema.fields.len()
        invariant
            i <= schema.fields.len(),
            field_with(schema@, key@, 0) == field_with(schema@, key@, i as int),
        decreases schema.fields.len() - i,
    {
        assert(schema@[i as int] == schema.fields@[i as int]@);
        if text::same_text(schema.fields[i].key.as_str(), key) {
            return Some(&schema.fields[i]);
        }
        i += 1;
    }
    None
}

fn setting_from(kind: &SettingKind, value: &str) -> (setting: Option<SettingValue>)
    ensures
        match (setting, named_setting(kind@, value@)) {
            (Some(setting), Some(view)) => setting@ == view,
            (None, None) => true,
            _ => false,
        },
{
    match kind {
        SettingKind::Bool => if text::same_text(value, "true") {
            Some(SettingValue::Bool(true))
        } else if text::same_text(value, "false") {
            Some(SettingValue::Bool(false))
        } else {
            None
        },
        SettingKind::Integer { .. } => match parse_integer(value) {
            Some(number) => Some(SettingValue::Integer(number)),
            None => None,
        },
        SettingKind::Enum { .. } => Some(SettingValue::Enum(value.to_owned())),
    }
}

fn samples_from(value: &str) -> (samples: Option<bool>)
    ensures
        samples == named_samples(value@),
{
    if text::same_text(value, "on") {
        Some(true)
    } else if text::same_text(value, "off") {
        Some(false)
    } else {
        None
    }
}

fn format_from(value: &str) -> (format: Option<ValueFormat>)
    ensures
        format == named_format(value@),
{
    if text::same_text(value, "dec") {
        Some(ValueFormat::Decimal)
    } else if text::same_text(value, "hex") {
        Some(ValueFormat::Hexadecimal)
    } else {
        None
    }
}

fn style_from(value: &str) -> (style: Option<Option<AnalogRenderStyle>>)
    ensures
        style == named_style(value@),
{
    if text::same_text(value, "off") {
        Some(None)
    } else if text::same_text(value, "step") {
        Some(Some(AnalogRenderStyle::Step))
    } else if text::same_text(value, "interpolated") {
        Some(Some(AnalogRenderStyle::Interpolated))
    } else {
        None
    }
}

fn scale_from(value: &str) -> (scale: Option<AnalogYAxisScale>)
    ensures
        scale == named_scale(value@),
{
    if text::same_text(value, "viewport") {
        Some(AnalogYAxisScale::Viewport)
    } else if text::same_text(value, "global") {
        Some(AnalogYAxisScale::Global)
    } else if text::same_text(value, "type_limits") {
        Some(AnalogYAxisScale::TypeLimits)
    } else {
        None
    }
}

impl Description {
    fn set_option(&mut self, schema: &SettingsSchema, key: String, value: String) -> (result: Result<
        (),
        CommandError,
    >)
        ensures
            match (result, with_option(old(self)@, schema@, key@, value@)) {
                (Ok(()), Ok(described)) => final(self)@ == described,
                (Err(error), Err(fault)) => error@ == fault,
                _ => false,
            },
    {
        let valid = if text::same_text(key.as_str(), "samples") {
            match samples_from(value.as_str()) {
                Some(samples) => {
                    self.show_samples = samples;
                    true
                },
                None => false,
            }
        } else if text::same_text(key.as_str(), "format") {
            match format_from(value.as_str()) {
                Some(format) => {
                    self.value_format = format;
                    true
                },
                None => false,
            }
        } else if text::same_text(key.as_str(), "analog") {
            match style_from(value.as_str()) {
                Some(style) => {
                    self.style = style;
                    true
                },
                None => false,
            }
        } else if text::same_text(key.as_str(), "analog_scale") {
            match scale_from(value.as_str()) {
                Some(scale) => {
                    self.scale = scale;
                    true
                },
                None => false,
            }
        } else {
            match find_field(schema, key.as_str()) {
                Some(field) => match setting_from(&field.kind, value.as_str()) {
                    Some(setting) => {
                        self.settings.set(key.clone(), setting);
                        true
                    },
                    None => false,
                },
                None => {
                    return Err(CommandError::UnknownSetting { key });
                },
            }
        };
        if valid {
            Ok(())
        } else {
            Err(CommandError::InvalidValue { key, value })
        }
    }

    fn set_argument(
        &mut self,
        specs: &Vec<InputSpec>,
        schema: &SettingsSchema,
        argument: &String,
    ) -> (result: Result<(), CommandError>)
        ensures
            match (
                result,
                with_argument(old(self)@, input::spec_views(specs@), schema@, argument@),
            ) {
                (Ok(()), Ok(described)) => final(self)@ == described,
                (Err(error), Err(fault)) => error@ == fault,
                _ => false,
            },
    {
        let chars = text::chars_of(argument.as_str());
        let mut key = String::new();
        let mut at: usize = 0;
        assert(key@ =~= argument@.take(0));
        while at < chars.len() && chars[at] != '='
            invariant
                chars@ == argument@,
                at <= chars.len(),
                key@ == argument@.take(at as int),
                forall|k: int| 0 <= k < at ==> #[trigger] argument@[k] != '=',
            decreases chars.len() - at,
        {
            key.push(chars[at]);
            assert(key@ =~= argument@.take(at + 1));
            at += 1;
        }
        if at < chars.len() {
            proof {
                assert(argument@[at as int] == '=');
                assert(argument@.contains('='));
                argument@.index_of_first_ensures('=');
            }
            let value = text::text_from(&chars, at + 1);
            return self.set_option(schema, key, value);
        }
        assert(!argument@.contains('='));
        let ghost before = input::input_views(self.inputs@);
        let given = self.inputs.len();
        if given < specs.len() {
            let added = DecoderInput {
                role: specs[given].role.clone(),
                variable_ref: VariableRef::from_hierarchy_string(argument.as_str()),
            };
            let ghost view = added@;
            assert(input::spec_views(specs@)[given as int] == specs@[given as int]@);
            self.inputs.push(added);
            assert(input::input_views(self.inputs@) =~= before.push(view));
            Ok(())
        } else {
            Err(CommandError::TooManySignals { signal: argument.clone() })
        }
    }
}

proof fn faults_stay(
    needs: Seq<InputSpecView>,
    fields: Seq<FieldView>,
    scale: AnalogYAxisScale,
    arguments: Seq<Seq<char>>,
    n: nat,
    m: nat,
)
    requires
        n <= m,
        described_by(needs, fields, scale, arguments, n) is Err,
    ensures
        described_by(needs, fields, scale, arguments, m) == described_by(
            needs,
            fields,
            scale,
            arguments,
            n,
        ),
    decreases m,
{
    if n < m {
        faults_stay(needs, fields, scale, arguments, n, (m - 1) as nat);
    }
}

fn find_required(specs: &Vec<InputSpec>, from: usize) -> (role: Option<String>)
    ensures
        match (role, first_required(input::spec_views(specs@), from as int)) {
            (Some(role), Some(view)) => role@ == view,
            (None, None) => true,
            _ => false,
        },
{
    let ghost needs = input::spec_views(specs@);
    let mut i: usize = from;
    while i < specs.len()
        invariant
            needs == input::spec_views(specs@),
            from <= i,
            first_required(needs, from as int) == first_required(needs, i as int),
        decreases specs.len() - i,
    {
        assert(needs[i as int] == specs@[i as int]@);
        if specs[i].required {
            return Some(specs[i].role.clone());
        }
        i += 1;
    }
    None
}

/// The decoder that the arguments of `decoder_add` describe, behind its id:
/// signals for the inputs, in the order in which the decoder declares them, and
/// settings and display options as `key=value`. `scale` is the scale of analog
/// rendering where the command names none.
pub fn decoder_add<D: SignalDecoder>(
    decoder: &D,
    scale: AnalogYAxisScale,
    arguments: &Vec<String>,
) -> (choice: Result<DecoderChoice, CommandError>)
    ensures
        match (choice, added(decoder, scale, text::texts(arguments@))) {
            (Ok(choice), Ok(view)) => choice@ == view,
            (Err(error), Err(fault)) => error@ == fault,
            _ => false,
        },
{
    let specs = decoder.inputs();
    let schema = decoder.settings_schema();
    let mut description = Description {
        inputs: Vec::new(),
        settings: decoder.default_settings(),
        show_samples: true,
        value_format: ValueFormat::Decimal,
        style: None,
        scale,
    };
    let ghost given = text::texts(arguments@);
    let mut i: usize = 0;
    assert(input::input_views(description.inputs@) =~= Seq::<InputView>::empty());
    while i < arguments.len()
        invariant
            i <= arguments.len(),
            given == text::texts(arguments@),
            input::spec_views(specs@) == decoder.needs(),
            schema@ == decoder.fields(),
            described_by(decoder.needs(), decoder.fields(), scale, given, i as nat) == Ok::<
                Described,
                CommandErrorView,
            >(description@),
        decreases arguments.len() - i,
    {
        assert(given[i as int] == arguments@[i as int]@);
        if let Err(error) = description.set_argument(specs, schema, &arguments[i]) {
            proof {
                faults_stay(
                    decoder.needs(),
                    decoder.fields(),
                    scale,
                    given,
                    (i + 1) as nat,
                    given.len(),
                );
            }
            return Err(error);
        }
        i += 1;
    }
    assert(description@.inputs.len() == description.inputs@.len());
    if let Some(role) = find_required(specs, description.inputs.len()) {
        return Err(CommandError::MissingInput { role });
    }
    if let Err(reason) = decoder.validate_settings(&description.settings) {
        return Err(CommandError::InvalidSettings { reason });
    }
    Ok(
        DecoderChoice {
            decoder: decoder.id().to_owned(),
            inputs: description.inputs,
            settings: description.settings,
            show_samples: description.show_samples,
            value_format: description.value_format,
            analog: match description.style {
                Some(render_style) => Some(
                    AnalogSettings { render_style, y_axis_scale: description.scale },
                ),
                None => None,
            },
        },
    )
}

/// A change to how a decoder is displayed.
#[derive(Debug, Clone, Copy, PartialEq, Eq, Structural)]
pub enum DisplayChange {
    /// Show sample values, or do not.
    Samples(bool),
    /// Show them in a format.
    Format(ValueFormat),
    /// Draw analog waveforms in a style, or none.
    Analog(Option<AnalogRenderStyle>),
}

/// The change that a command asks for: `item_set_samples`,
/// `item_set_value_format` or `item_set_analog`, with one value.
pub open spec fn named_change(words: Seq<Seq<char>>) -> Option<DisplayChange> {
    if words.len() != 2 {
        None
    } else if words[0] == "item_set_samples"@ {
        match named_samples(words[1]) {
            Some(samples) => Some(DisplayChange::Samples(samples)),
            None => None,
        }
    } else if words[0] == "item_set_value_format"@ {
        match named_format(words[1]) {
            Some(format) => Some(DisplayChange::Format(format)),
            None => None,
        }
    } else if words[0] == "item_set_analog"@ {
        match named_style(words[1]) {
            Some(style) => Some(DisplayChange::Analog(style)),
            None => None,
        }
    } else {
        None
    }
}

/// The change that a command asks for, if it asks for one.
pub fn display_change(words: &Vec<String>) -> (change: Option<DisplayChange>)
    ensures
        change == named_change(text::texts(words@)),
{
    if words.len() != 2 {
        return None;
    }
    let name = words[0].as_str();
    let value = words[1].as_str();
    assert(text::texts(words@)[0] == name@ && text::texts(words@)[1] == value@);
    if text::same_text(name, "item_set_samples") {
        match samples_from(value) {
            Some(samples) => Some(DisplayChange::Samples(samples)),
            None => None,
        }
    } else if text::same_text(name, "item_set_value_format") {
        match format_from(value) {
            Some(format) => Some(DisplayChange::Format(format)),
            None => None,
        }
    } else if text::same_text(name, "item_set_analog") {
        match style_from(value) {
            Some(style) => Some(DisplayChange::Analog(style)),
            None => None,
        }
    } else {
        None
    }
}

/// How a decoder is displayed after a change. Analog waveforms that were not
/// drawn before are drawn to `scale`.
pub open spec fn changed(
    displayed: DisplayedView,
    change: DisplayChange,
    scale: AnalogYAxisScale,
) -> DisplayedView {
    match change {
        DisplayChange::Samples(show_samples) => DisplayedView { show_samples, ..displayed },
        DisplayChange::Format(value_format) => DisplayedView { value_format, ..displayed },
        DisplayChange::Analog(None) => DisplayedView { analog: None, ..displayed },
        DisplayChange::Analog(Some(render_style)) => DisplayedView {
            analog: Some(
                AnalogSettings {
                    render_style,
                    y_axis_scale: match displayed.analog {
                        Some(analog) => analog.y_axis_scale,
                        None => scale,
                    },
                },
            ),
            ..displayed
        },
    }
}

impl DisplayedDecoder {
    /// Change how the decoder is displayed. What it has decoded stays.
    pub fn change_display(&mut self, change: DisplayChange, scale: AnalogYAxisScale)
        ensures
            final(self)@ == changed(old(self)@, change, scale),
            final(self).cache == old(self).cache,
    {
        match change {
            DisplayChange::Samples(samples) => {
                self.show_samples = samples;
            },
            DisplayChange::Format(format) => {
                self.value_format = format;
            },
            DisplayChange::Analog(None) => {
                self.analog = None;
            },
            DisplayChange::Analog(Some(render_style)) => {
                let y_axis_scale = match self.analog {
                    Some(analog) => analog.y_axis_scale,
                    None => scale,
                };
                self.analog = Some(AnalogSettings { render_style, y_axis_scale });
            },
        }
    }
}

} // verus!
