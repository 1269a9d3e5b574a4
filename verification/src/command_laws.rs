//! What commands mean.
use vstd::prelude::*;
use crate::commands;
use crate::commands::{CommandErrorView, Described, DisplayChange, Reading};
use crate::decoders::decoder::SignalDecoder;
#[allow(unused_imports)]
use crate::decoders::error::ErrorView;
use crate::decoders::input;
use crate::decoders::input::{InputSpecView, InputView};
use crate::decoders::settings;
use crate::decoders::settings::{FieldView, KindView, SettingView};
use crate::decoders::value::ValueFormat;
use crate::decoders::value_laws;
use crate::displayed::{AnalogRenderStyle, AnalogSettings, AnalogYAxisScale, DisplayedView};
use crate::message::ChoiceView;
use crate::text;

verus! {

proof fn words_differ()
    ensures
        "on"@ != "off"@,
        "dec"@ != "hex"@,
        "off"@ != "step"@,
        "off"@ != "interpolated"@,
        "step"@ != "interpolated"@,
        "viewport"@ != "global"@,
        "viewport"@ != "type_limits"@,
        "global"@ != "type_limits"@,
        "true"@ != "false"@,
        "samples"@ != "format"@,
        "samples"@ != "analog"@,
        "samples"@ != "analog_scale"@,
        "format"@ != "analog"@,
        "format"@ != "analog_scale"@,
        "analog"@ != "analog_scale"@,
        "item_set_samples"@ != "item_set_value_format"@,
        "item_set_samples"@ != "item_set_analog"@,
        "item_set_value_format"@ != "item_set_analog"@,
{
    reveal_strlit("on");
    reveal_strlit("off");
    reveal_strlit("dec");
    reveal_strlit("hex");
    reveal_strlit("step");
    reveal_strlit("interpolated");
    reveal_strlit("viewport");
    reveal_strlit("global");
    reveal_strlit("type_limits");
    reveal_strlit("true");
    reveal_strlit("false");
    reveal_strlit("samples");
    reveal_strlit("format");
    reveal_strlit("analog");
    reveal_strlit("analog_scale");
    reveal_strlit("item_set_samples");
    reveal_strlit("item_set_value_format");
    reveal_strlit("item_set_analog");
    assert("dec"@[0] == 'd' && "hex"@[0] == 'h');
    assert("on"@.len() == 2 && "off"@.len() == 3 && "step"@.len() == 4);
    assert("viewport"@.len() == 8 && "global"@.len() == 6 && "type_limits"@.len() == 11);
    assert("interpolated"@.len() == 12 && "true"@.len() == 4 && "false"@.len() == 5);
    assert("samples"@.len() == 7 && "format"@.len() == 6);
    assert("analog"@.len() == 6 && "analog_scale"@.len() == 12);
    assert("format"@[0] == 'f' && "analog"@[0] == 'a');
    assert("item_set_samples"@.len() == 16 && "item_set_value_format"@.len() == 21);
    assert("item_set_analog"@.len() == 15);
}

/// Which word stands for what.
pub proof fn words_have_one_meaning(word: Seq<char>)
    ensures
        commands::named_samples(word) == Some(true) <==> word == "on"@,
        commands::named_samples(word) == Some(false) <==> word == "off"@,
        commands::named_format(word) == Some(ValueFormat::Decimal) <==> word == "dec"@,
        commands::named_format(word) == Some(ValueFormat::Hexadecimal) <==> word == "hex"@,
        commands::named_style(word) == Some(None::<AnalogRenderStyle>) <==> word == "off"@,
        commands::named_style(word) == Some(Some(AnalogRenderStyle::Step)) <==> word == "step"@,
        commands::named_style(word) == Some(Some(AnalogRenderStyle::Interpolated)) <==> word
            == "interpolated"@,
        commands::named_scale(word) == Some(AnalogYAxisScale::Viewport) <==> word == "viewport"@,
        commands::named_scale(word) == Some(AnalogYAxisScale::Global) <==> word == "global"@,
        commands::named_scale(word) == Some(AnalogYAxisScale::TypeLimits) <==> word
            == "type_limits"@,
{
    words_differ();
}

/// A setting takes the value that its word stands for: `true` and `false` for a
/// switch, a number for an integer, and the word itself for a choice.
pub proof fn setting_words_have_one_meaning(kind: KindView, word: Seq<char>)
    ensures
        match kind {
            KindView::Bool => {
                &&& commands::named_setting(kind, word) == Some(SettingView::Bool(true)) <==> word
                    == "true"@
                &&& commands::named_setting(kind, word) == Some(SettingView::Bool(false)) <==> word
                    == "false"@
                &&& commands::named_setting(kind, word) is None <==> word != "true"@ && word
                    != "false"@
            },
            KindView::Integer { .. } => {
                &&& commands::named_setting(kind, word) is None <==> commands::named_integer(
                    word,
                ) is None
                &&& commands::named_setting(kind, word) matches Some(setting) ==> setting
                    matches SettingView::Integer(n) && commands::named_integer(word) == Some(
                    n as int,
                )
            },
            KindView::Enum { .. } => commands::named_setting(kind, word) == Some(
                SettingView::Enum(word),
            ),
        },
{
    words_differ();
}

proof fn same_digits(digits: Seq<char>)
    requires
        forall|i: int| 0 <= i < digits.len() ==> '0' <= #[trigger] digits[i] <= '9',
    ensures
        commands::digits_value(digits) == value_laws::number_in(10, digits),
    decreases digits.len(),
{
    if digits.len() > 0 {
        let front = digits.drop_last();
        assert forall|i: int| 0 <= i < front.len() implies '0' <= #[trigger] front[i] <= '9' by {
            assert(front[i] == digits[i]);
        }
        same_digits(front);
        assert(digits.last() == digits[digits.len() - 1]);
    }
}

/// Every integer of 64 bits is read back from its decimal digits, and nothing
/// beyond that range is an integer.
pub proof fn integers_read_back(n: int)
    ensures
        commands::named_integer(text::signed_decimal(n)) == (if -0x8000_0000_0000_0000 <= n
            <= 0x7fff_ffff_ffff_ffff {
            Some(n)
        } else {
            None
        }),
{
    let shown = text::signed_decimal(n);
    if n < 0 {
        value_laws::decimals_read_back((-n) as nat);
        assert(shown.skip(1) =~= text::decimal((-n) as nat));
        same_digits(text::decimal((-n) as nat));
        assert(commands::are_digits(shown.skip(1)));
    } else {
        value_laws::decimals_read_back(n as nat);
        same_digits(text::decimal(n as nat));
        assert('0' <= shown[0] <= '9');
        assert(commands::are_digits(shown));
    }
}

/// An option changes what it names and nothing else; a setting changes the value
/// of its own key and nothing else.
pub proof fn options_change_one_thing(
    described: Described,
    fields: Seq<FieldView>,
    key: Seq<char>,
    value: Seq<char>,
)
    ensures
        ({
            let after = commands::with_option(described, fields, key, value);
            &&& key == "samples"@ ==> after == (match commands::named_samples(value) {
                Some(show_samples) => Ok(Described { show_samples, ..described }),
                None => Err(CommandErrorView::InvalidValue { key, value }),
            })
            &&& key == "format"@ ==> after == (match commands::named_format(value) {
                Some(value_format) => Ok(Described { value_format, ..described }),
                None => Err(CommandErrorView::InvalidValue { key, value }),
            })
            &&& key == "analog"@ ==> after == (match commands::named_style(value) {
                Some(style) => Ok(Described { style, ..described }),
                None => Err(CommandErrorView::InvalidValue { key, value }),
            })
            &&& key == "analog_scale"@ ==> after == (match commands::named_scale(value) {
                Some(scale) => Ok(Described { scale, ..described }),
                None => Err(CommandErrorView::InvalidValue { key, value }),
            })
            &&& key != "samples"@ && key != "format"@ && key != "analog"@ && key != "analog_scale"@
                ==> {
                &&& after matches Ok(changed) ==> {
                    &&& changed.inputs == described.inputs
                    &&& changed.show_samples == described.show_samples
                    &&& changed.value_format == described.value_format
                    &&& changed.style == described.style
                    &&& changed.scale == described.scale
                    &&& changed.settings.contains_key(key)
                    &&& changed.settings.remove(key) == described.settings.remove(key)
                    &&& exists|i: int|
                        0 <= i < fields.len() && (#[trigger] fields[i]).key == key
                            && commands::named_setting(fields[i].kind, value) == Some(
                            changed.settings[key],
                        )
                }
                &&& after matches Err(fault) ==> {
                    ||| fault == (CommandErrorView::UnknownSetting { key }) && forall|i: int|
                        0 <= i < fields.len() ==> (#[trigger] fields[i]).key != key
                    ||| fault == (CommandErrorView::InvalidValue { key, value }) && exists|i: int|
                        0 <= i < fields.len() && (#[trigger] fields[i]).key == key
                            && commands::named_setting(fields[i].kind, value) is None
                }
            }
        }),
{
    words_differ();
    field_is_found(fields, key, 0);
    if let Ok(changed) = commands::with_option(described, fields, key, value) {
        if key != "samples"@ && key != "format"@ && key != "analog"@ && key != "analog_scale"@ {
            assert(changed.settings.remove(key) =~= described.settings.remove(key));
        }
    }
}

proof fn field_is_found(fields: Seq<FieldView>, key: Seq<char>, from: int)
    requires
        0 <= from,
    ensures
        match commands::field_with(fields, key, from) {
            Some(found) => found.key == key && exists|i: int|
                from <= i < fields.len() && #[trigger] fields[i] == found,
            None => forall|i: int| from <= i < fields.len() ==> (#[trigger] fields[i]).key != key,
        },
    decreases fields.len() - from,
{
    if from < fields.len() {
        field_is_found(fields, key, from + 1);
        if fields[from].key == key {
            assert(fields[from] == fields[from]);
        }
    }
}

/// An argument with `=` is an option, split at the first `=`; any other one is
/// the signal of the next input, in the order in which the decoder declares
/// them.
pub proof fn arguments_are_told_apart(
    described: Described,
    needs: Seq<InputSpecView>,
    fields: Seq<FieldView>,
    key: Seq<char>,
    value: Seq<char>,
    signal: Seq<char>,
)
    requires
        !key.contains('='),
        !signal.contains('='),
    ensures
        commands::with_argument(described, needs, fields, key + seq!['='] + value)
            == commands::with_option(described, fields, key, value),
        described.inputs.len() < needs.len() ==> commands::with_argument(
            described,
            needs,
            fields,
            signal,
        ) == Ok::<Described, CommandErrorView>(
            (Described {
                inputs: described.inputs.push(
                    (InputView {
                        role: needs[described.inputs.len() as int].role,
                        variable: input::named_variable(signal),
                    }),
                ),
                ..described
            }),
        ),
        described.inputs.len() >= needs.len() ==> commands::with_argument(
            described,
            needs,
            fields,
            signal,
        ) == Err::<Described, CommandErrorView>((CommandErrorView::TooManySignals { signal })),
{
    let argument = key + seq!['='] + value;
    let at = key.len() as int;
    assert(argument[at] == '=');
    assert(argument.contains('='));
    argument.index_of_first_ensures('=');
    let first = argument.index_of_first('=').unwrap();
    if first < at {
        assert(argument[first] == key[first]);
        assert(key.contains(key[first]));
    }
    assert(first == at);
    assert(argument.take(at) =~= key);
    assert(argument.skip(at + 1) =~= value);
}

/// A decoder is added with what its arguments describe, where every required
/// input has a signal and its settings are sound. Without `analog` no analog
/// waveform is drawn, and with it the scale is the one that is named or given.
pub proof fn sound_commands_add_decoders<D: SignalDecoder>(
    decoder: &D,
    scale: AnalogYAxisScale,
    arguments: Seq<Seq<char>>,
    described: Described,
)
    requires
        commands::described_by(
            decoder.needs(),
            decoder.fields(),
            scale,
            arguments,
            arguments.len(),
        ) == Ok::<Described, CommandErrorView>(described),
    ensures
        ({
            let given = described.inputs.len() as int;
            let complete = forall|i: int|
                given <= i < decoder.needs().len() ==> !(#[trigger] decoder.needs()[i]).required;
            match commands::added(decoder, scale, arguments) {
                Ok(choice) => {
                    &&& complete
                    &&& decoder.settings_fault(described.settings) is None
                    &&& choice.decoder == decoder.identifier()
                    &&& choice.inputs == described.inputs
                    &&& choice.settings == described.settings
                    &&& choice.show_samples == described.show_samples
                    &&& choice.value_format == described.value_format
                    &&& choice.analog is None <==> described.style is None
                    &&& choice.analog matches Some(analog) ==> described.style == Some(
                        analog.render_style,
                    ) && analog.y_axis_scale == described.scale
                },
                Err(CommandErrorView::MissingInput { role }) => exists|i: int|
                    given <= i < decoder.needs().len() && (#[trigger] decoder.needs()[i]).required
                        && decoder.needs()[i].role == role,
                Err(CommandErrorView::InvalidSettings { reason }) => complete
                    && decoder.settings_fault(described.settings) == Some(reason),
                Err(_) => false,
            }
        }),
{
    required_is_found(decoder.needs(), described.inputs.len() as int);
}

proof fn required_is_found(needs: Seq<InputSpecView>, from: int)
    requires
        0 <= from,
    ensures
        match commands::first_required(needs, from) {
            Some(role) => exists|i: int|
                from <= i < needs.len() && (#[trigger] needs[i]).required && needs[i].role == role,
            None => forall|i: int| from <= i < needs.len() ==> !(#[trigger] needs[i]).required,
        },
    decreases needs.len() - from,
{
    if from < needs.len() {
        required_is_found(needs, from + 1);
        if needs[from].required {
            assert(needs[from].role == needs[from].role);
        }
    }
}

/// Without arguments a decoder has no inputs and its default settings, shows its
/// samples in decimal, and draws no analog waveform.
pub proof fn commands_begin_with_defaults(
    needs: Seq<InputSpecView>,
    fields: Seq<FieldView>,
    scale: AnalogYAxisScale,
    arguments: Seq<Seq<char>>,
)
    ensures
        commands::described_by(needs, fields, scale, arguments, 0) matches Ok(described) && {
            &&& described.inputs.len() == 0
            &&& described.settings == settings::declared_defaults(fields, fields.len())
            &&& described.show_samples
            &&& described.value_format == ValueFormat::Decimal
            &&& described.style is None
            &&& described.scale == scale
        },
{
}

/// The arguments are read from the first to the last, and the first one that is
/// not understood is told.
pub proof fn arguments_are_read_in_order(
    needs: Seq<InputSpecView>,
    fields: Seq<FieldView>,
    scale: AnalogYAxisScale,
    arguments: Seq<Seq<char>>,
    n: nat,
)
    requires
        n < arguments.len(),
    ensures
        match commands::described_by(needs, fields, scale, arguments, n) {
            Ok(described) => commands::described_by(needs, fields, scale, arguments, n + 1)
                == commands::with_argument(described, needs, fields, arguments[n as int]),
            Err(fault) => commands::described_by(needs, fields, scale, arguments, n + 1) == Err::<
                Described,
                CommandErrorView,
            >(fault),
        },
{
}

/// A display command changes what it names: whether samples are shown, their
/// format, or the analog waveform, and nothing else. An analog waveform keeps the
/// scale that it has.
pub proof fn display_commands_change_one_thing(
    name: Seq<char>,
    word: Seq<char>,
    displayed: DisplayedView,
    scale: AnalogYAxisScale,
)
    ensures
        ({
            let words = seq![name, word];
            let change = commands::named_change(words);
            &&& name == "item_set_samples"@ ==> (change is Some <==> commands::named_samples(
                word,
            ) is Some)
            &&& name == "item_set_value_format"@ ==> (change is Some <==> commands::named_format(
                word,
            ) is Some)
            &&& name == "item_set_analog"@ ==> (change is Some <==> commands::named_style(
                word,
            ) is Some)
            &&& name != "item_set_samples"@ && name != "item_set_value_format"@ && name
                != "item_set_analog"@ ==> change is None
            &&& change matches Some(asked) ==> {
                let after = commands::changed(displayed, asked, scale);
                &&& after.decoder == displayed.decoder
                &&& after.inputs == displayed.inputs
                &&& after.settings == displayed.settings
                &&& after.display_name == displayed.display_name
                &&& name == "item_set_samples"@ ==> Some(after.show_samples)
                    == commands::named_samples(word)
                &&& name != "item_set_samples"@ ==> after.show_samples == displayed.show_samples
                &&& name == "item_set_value_format"@ ==> Some(after.value_format)
                    == commands::named_format(word)
                &&& name != "item_set_value_format"@ ==> after.value_format
                    == displayed.value_format
                &&& name == "item_set_analog"@ ==> match commands::named_style(word) {
                    Some(Some(style)) => after.analog == Some(
                        AnalogSettings {
                            render_style: style,
                            y_axis_scale: if displayed.analog is Some {
                                displayed.analog.unwrap().y_axis_scale
                            } else {
                                scale
                            },
                        },
                    ),
                    _ => after.analog is None,
                }
                &&& name != "item_set_analog"@ ==> after.analog == displayed.analog
            }
        }),
{
    words_differ();
}

/// A display command has exactly one value.
pub proof fn display_commands_have_one_value(words: Seq<Seq<char>>)
    requires
        words.len() != 2,
    ensures
        commands::named_change(words) is None,
{
}

/// What has been read after some more text.
pub open spec fn after_text(reading: Reading, more: Seq<char>) -> Reading
    decreases more.len(),
{
    if more.len() == 0 {
        reading
    } else {
        commands::after_char(after_text(reading, more.drop_last()), more.last())
    }
}

proof fn text_in_parts(reading: Reading, a: Seq<char>, b: Seq<char>)
    ensures
        after_text(reading, a + b) == after_text(after_text(reading, a), b),
    decreases b.len(),
{
    if b.len() == 0 {
        assert(a + b =~= a);
    } else {
        text_in_parts(reading, a, b.drop_last());
        assert((a + b).drop_last() =~= a + b.drop_last());
    }
}

spec fn nothing_read() -> Reading {
    Reading { commands: Seq::empty(), words: Seq::empty(), word: Seq::empty(), comment: false }
}

proof fn read_is_after(all: Seq<char>, n: nat)
    requires
        n <= all.len(),
    ensures
        commands::read_upto(all, n) == after_text(nothing_read(), all.take(n as int)),
    decreases n,
{
    if n > 0 {
        read_is_after(all, (n - 1) as nat);
        assert(all.take(n as int).drop_last() =~= all.take(n - 1));
        assert(all.take(n as int).last() == all[n - 1]);
    } else {
        assert(all.take(0) =~= Seq::<char>::empty());
    }
}

proof fn word_is_read(reading: Reading, word: Seq<char>, n: int)
    requires
        commands::is_word(word),
        !reading.comment,
        reading.word.len() == 0,
        reading.words.len() > 0 || word[0] != '#',
        0 <= n <= word.len(),
    ensures
        after_text(reading, word.take(n)) == (Reading { word: word.take(n), ..reading }),
    decreases n,
{
    if n == 0 {
        assert(word.take(0) =~= Seq::<char>::empty());
        assert(reading.word =~= Seq::<char>::empty());
        assert(reading =~= Reading { word: word.take(n), ..reading });
    } else {
        word_is_read(reading, word, n - 1);
        let before = after_text(reading, word.take(n - 1));
        assert(word.take(n).drop_last() =~= word.take(n - 1));
        assert(word.take(n).last() == word[n - 1]);
        assert(!commands::is_blank(word[n - 1]) && word[n - 1] != '\n' && word[n - 1] != ';');
        assert(before.word.push(word[n - 1]) =~= word.take(n));
        assert(after_text(reading, word.take(n)) =~= Reading { word: word.take(n), ..reading });
    }
}

/// A command as its words with a blank between them.
pub open spec fn written(words: Seq<Seq<char>>) -> Seq<char> {
    text::joined(words, seq![' '])
}

/// Whether words are a command: there is one, each of them is a word, and the
/// first does not begin a comment.
pub open spec fn is_command(words: Seq<Seq<char>>) -> bool {
    &&& words.len() > 0
    &&& forall|i: int| 0 <= i < words.len() ==> commands::is_word(#[trigger] words[i])
    &&& words[0][0] != '#'
}

proof fn words_are_read(reading: Reading, words: Seq<Seq<char>>)
    requires
        is_command(words),
        !reading.comment,
        reading.word.len() == 0,
        reading.words.len() == 0,
    ensures
        after_text(reading, written(words)) == (Reading {
            words: words.drop_last(),
            word: words.last(),
            ..reading
        }),
    decreases words.len(),
{
    let last = words.last();
    assert(commands::is_word(words[words.len() - 1]));
    if words.len() == 1 {
        assert(words[0] == last);
        word_is_read(reading, last, last.len() as int);
        assert(last.take(last.len() as int) =~= last);
        assert(words.drop_last() =~= Seq::<Seq<char>>::empty());
        assert(reading.words =~= Seq::<Seq<char>>::empty());
    } else {
        let front = words.drop_last();
        assert(front[0] == words[0]);
        assert forall|i: int| 0 <= i < front.len() implies commands::is_word(
            #[trigger] front[i],
        ) by {
            assert(front[i] == words[i]);
        }
        words_are_read(reading, front);
        let before = after_text(reading, written(front));
        let blank = seq![' '];
        assert(commands::is_word(front[front.len() - 1]));
        text_in_parts(reading, written(front), blank);
        assert(blank.drop_last() =~= Seq::<char>::empty());
        assert(after_text(before, Seq::<char>::empty()) == before);
        let split = after_text(before, blank);
        assert(split == commands::after_word(before));
        assert(front.drop_last().push(front.last()) =~= front);
        assert(split =~= Reading { words: front, word: Seq::empty(), ..reading });
        word_is_read(split, last, last.len() as int);
        assert(last.take(last.len() as int) =~= last);
        text_in_parts(reading, written(front) + blank, last);
    }
}

/// Commands one after another, each with the line end or `;` that ends it.
pub open spec fn script(all: Seq<Seq<Seq<char>>>, ends: Seq<char>) -> Seq<char>
    decreases all.len(),
{
    if all.len() == 0 {
        Seq::empty()
    } else {
        script(all.drop_last(), ends) + written(all.last()) + seq![ends[all.len() - 1]]
    }
}

proof fn script_is_read(all: Seq<Seq<Seq<char>>>, ends: Seq<char>)
    requires
        forall|i: int| 0 <= i < all.len() ==> is_command(#[trigger] all[i]),
        all.len() <= ends.len(),
        forall|i: int| 0 <= i < ends.len() ==> (#[trigger] ends[i] == '\n' || ends[i] == ';'),
    ensures
        after_text(nothing_read(), script(all, ends)) == (Reading {
            commands: all,
            ..nothing_read()
        }),
    decreases all.len(),
{
    if all.len() == 0 {
        assert(all =~= Seq::<Seq<Seq<char>>>::empty());
    } else {
        let front = all.drop_last();
        let words = all.last();
        assert forall|i: int| 0 <= i < front.len() implies is_command(#[trigger] front[i]) by {
            assert(front[i] == all[i]);
        }
        assert(is_command(all[all.len() - 1]));
        script_is_read(front, ends);
        let before = after_text(nothing_read(), script(front, ends));
        words_are_read(before, words);
        let end = ends[all.len() - 1];
        let ended = seq![end];
        text_in_parts(nothing_read(), script(front, ends), written(words));
        text_in_parts(nothing_read(), script(front, ends) + written(words), ended);
        let full = after_text(before, written(words));
        assert(ended.drop_last() =~= Seq::<char>::empty());
        assert(after_text(full, Seq::<char>::empty()) == full);
        assert(after_text(full, ended) == commands::after_command(full));
        assert(commands::is_word(words[words.len() - 1]));
        assert(words.drop_last().push(words.last()) =~= words);
        assert(front.push(words) =~= all);
    }
}

/// Commands that are written down one after another, on lines of their own or
/// with `;` between them, are read back as their words.
pub proof fn commands_read_back(all: Seq<Seq<Seq<char>>>, ends: Seq<char>)
    requires
        forall|i: int| 0 <= i < all.len() ==> is_command(#[trigger] all[i]),
        all.len() <= ends.len(),
        forall|i: int| 0 <= i < ends.len() ==> (#[trigger] ends[i] == '\n' || ends[i] == ';'),
    ensures
        commands::commands_in(script(all, ends)) == all,
{
    let whole = script(all, ends);
    script_is_read(all, ends);
    read_is_after(whole, whole.len());
    assert(whole.take(whole.len() as int) =~= whole);
}

proof fn comment_is_passed(reading: Reading, remark: Seq<char>)
    requires
        reading.comment,
        !remark.contains('\n'),
    ensures
        after_text(reading, remark) == reading,
    decreases remark.len(),
{
    if remark.len() > 0 {
        assert(remark[remark.len() - 1] != '\n') by {
            assert(remark.contains(remark[remark.len() - 1]));
        }
        assert(!remark.drop_last().contains('\n')) by {
            if remark.drop_last().contains('\n') {
                let i = choose|i: int|
                    0 <= i < remark.drop_last().len() && remark.drop_last()[i] == '\n';
                assert(remark[i] == '\n');
            }
        }
        comment_is_passed(reading, remark.drop_last());
    }
}

/// A line that begins with `#` says nothing: it may hold anything, a `;` too.
pub proof fn comments_are_passed_over(before: Seq<char>, remark: Seq<char>)
    requires
        !remark.contains('\n'),
        before.len() == 0 || before.last() == '\n',
    ensures
        commands::commands_in(before + seq!['#'] + remark) == commands::commands_in(before),
{
    let whole = before + seq!['#'] + remark;
    let mark = seq!['#'];
    read_is_after(whole, whole.len());
    read_is_after(before, before.len());
    assert(whole.take(whole.len() as int) =~= whole);
    assert(before.take(before.len() as int) =~= before);
    let reading = after_text(nothing_read(), before);
    text_in_parts(nothing_read(), before, mark);
    text_in_parts(nothing_read(), before + mark, remark);
    assert(mark.drop_last() =~= Seq::<char>::empty());
    assert(after_text(reading, Seq::<char>::empty()) == reading);
    assert(reading.words.len() == 0 && reading.word.len() == 0 && !reading.comment);
    let marked = after_text(reading, mark);
    assert(marked.comment);
    comment_is_passed(marked, remark);
    assert(commands::after_command(marked) =~= commands::after_command(reading));
}

/// A plus sign before the digits of an integer changes nothing.
pub proof fn plus_signs_change_nothing(n: nat)
    ensures
        commands::named_integer(seq!['+'] + text::decimal(n)) == commands::named_integer(
            text::decimal(n),
        ),
{
    let shown = text::decimal(n);
    value_laws::decimals_read_back(n);
    same_digits(shown);
    assert((seq!['+'] + shown).skip(1) =~= shown);
    assert('0' <= shown[0] <= '9');
    assert(commands::are_digits(shown));
}

proof fn blanks_are_read_alike(a: Seq<char>, b: Seq<char>, at: int, n: nat)
    requires
        a.len() == b.len(),
        n <= a.len(),
        forall|i: int| 0 <= i < a.len() && i != at ==> #[trigger] a[i] == b[i],
        0 <= at < a.len(),
        a[at] == ' ' || a[at] == '\t' || a[at] == '\r',
        b[at] == ' ' || b[at] == '\t' || b[at] == '\r',
    ensures
        commands::read_upto(a, n) == commands::read_upto(b, n),
    decreases n,
{
    if n > 0 {
        blanks_are_read_alike(a, b, at, (n - 1) as nat);
        if n - 1 != at {
            assert(a[n - 1] == b[n - 1]);
        }
    }
}

/// Spaces, tabs and carriage returns separate words alike.
pub proof fn blanks_are_alike(before: Seq<char>, after: Seq<char>)
    ensures
        commands::commands_in(before + seq!['\t'] + after) == commands::commands_in(
            before + seq![' '] + after,
        ),
        commands::commands_in(before + seq!['\r'] + after) == commands::commands_in(
            before + seq![' '] + after,
        ),
{
    let space = before + seq![' '] + after;
    let tab = before + seq!['\t'] + after;
    let turn = before + seq!['\r'] + after;
    let at = before.len() as int;
    assert(space[at] == ' ' && tab[at] == '\t' && turn[at] == '\r');
    blanks_are_read_alike(tab, space, at, tab.len());
    blanks_are_read_alike(turn, space, at, turn.len());
}

/// What is said of a command that cannot be followed.
pub proof fn command_errors_tell_what_is_wrong(error: CommandErrorView)
    ensures
        match error {
            CommandErrorView::TooManySignals { signal } => commands::command_message(error)
                == "no decoder input is left for signal '"@ + signal + "'"@,
            CommandErrorView::MissingInput { role } => commands::command_message(error)
                == "no signal given for decoder input '"@ + role + "'"@,
            CommandErrorView::UnknownSetting { key } => commands::command_message(error)
                == "unknown decoder setting '"@ + key + "'"@,
            CommandErrorView::InvalidValue { key, value } => commands::command_message(error)
                == "invalid value '"@ + value + "' for '"@ + key + "'"@,
            CommandErrorView::InvalidSettings { reason } => commands::command_message(error)
                == crate::decoders::error::error_message(reason),
        },
{
}

} // verus!
