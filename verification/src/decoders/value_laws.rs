//! What settings, inputs and shown values mean.
use vstd::prelude::*;
#[allow(unused_imports)]
use vstd::arithmetic::power2;
use crate::bits;
use crate::decoders::cache;
use crate::decoders::error;
#[allow(unused_imports)]
use crate::decoders::error::ErrorView;
use crate::decoders::input;
use crate::decoders::input::{Bit, InputView, LoadedSignal, SignalId, SignalView, VariableValue, VariableView, WaveContainer, WaveVariable};
use crate::decoders::settings;
use crate::decoders::settings::{FieldView, KindView, SettingView};
use crate::decoders::value;
use crate::decoders::value::{NumericRange, ValueFormat, ValueView};
use crate::text;

verus! {

/// A stored value fits a setting exactly where it has the setting's type, and
/// lies within its bounds (which belong to them) or among its options. What is
/// wrong otherwise is told by the setting's label.
pub proof fn values_must_fit(field: FieldView, stored: Map<Seq<char>, SettingView>)
    ensures
        ({
            let key = field.key;
            let fault = settings::field_fault(field, stored);
            &&& fault == Some(ErrorView::MissingSetting { label: field.label })
                <==> !stored.contains_key(key)
            &&& stored.contains_key(key) ==> match field.kind {
                KindView::Bool => fault is None <==> stored[key] is Bool,
                KindView::Integer { min, max } => {
                    &&& fault is None <==> (exists|n: i64|
                        min <= n <= max && #[trigger] settings::holds(
                            stored,
                            key,
                            SettingView::Integer(n),
                        ))
                    &&& fault == Some(
                        ErrorView::SettingOutOfRange { label: field.label, min, max },
                    ) <==> stored[key] is Integer && fault is Some
                },
                KindView::Enum { options } => {
                    &&& fault is None <==> (exists|i: int|
                        0 <= i < options.len() && stored[key] == SettingView::Enum(
                            (#[trigger] options[i]).value,
                        ))
                    &&& forall|word: Seq<char>| #[trigger]
                        settings::holds(stored, key, SettingView::Enum(word)) && fault is Some
                            ==> fault == Some(
                            ErrorView::InvalidSettingValue { value: word, label: field.label },
                        )
                },
            }
            &&& stored.contains_key(key) ==> (fault == Some(
                ErrorView::WrongSettingType { label: field.label },
            ) <==> {
                ||| field.kind is Bool && stored[key] !is Bool
                ||| field.kind is Integer && stored[key] !is Integer
                ||| field.kind is Enum && stored[key] !is Enum
            })
        }),
{
    let key = field.key;
    if stored.contains_key(key) {
        if let SettingView::Integer(n) = stored[key] {
            assert(settings::holds(stored, key, SettingView::Integer(n)));
        }
        if let (KindView::Enum { options }, SettingView::Enum(word)) = (field.kind, stored[key]) {
            if settings::is_option(options, word) {
                let i = choose|i: int|
                    0 <= i < options.len() && (#[trigger] options[i]).value == word;
                assert(stored[key] == SettingView::Enum(options[i].value));
            }
        }
    }
}

/// Of several settings that do not fit, the first one is told.
pub proof fn first_bad_setting_is_told(
    fields: Seq<FieldView>,
    stored: Map<Seq<char>, SettingView>,
    from: int,
    k: int,
)
    requires
        0 <= from <= k < fields.len(),
        settings::field_fault(fields[k], stored) is Some,
        forall|i: int|
            from <= i < k ==> settings::field_fault(#[trigger] fields[i], stored) is None,
    ensures
        settings::first_fault(fields, stored, from) == settings::field_fault(fields[k], stored),
    decreases k - from,
{
    if from < k {
        assert(settings::field_fault(fields[from], stored) is None);
        first_bad_setting_is_told(fields, stored, from + 1, k);
    }
}

/// A value is read from what is stored for its key, where that has its type, and
/// is the given default otherwise.
pub proof fn stored_values_are_read(
    values: Map<Seq<char>, SettingView>,
    key: Seq<char>,
    b: bool,
    n: i64,
    word: Seq<char>,
)
    ensures
        values.contains_key(key) ==> match values[key] {
            SettingView::Bool(stored) => {
                &&& settings::bool_in(values, key, b) == stored
                &&& settings::integer_in(values, key, n) == n
                &&& settings::enum_in(values, key) is None
                &&& settings::enum_or(values, key, word) == word
            },
            SettingView::Integer(stored) => {
                &&& settings::bool_in(values, key, b) == b
                &&& settings::integer_in(values, key, n) == stored
                &&& settings::enum_in(values, key) is None
                &&& settings::enum_or(values, key, word) == word
            },
            SettingView::Enum(stored) => {
                &&& settings::bool_in(values, key, b) == b
                &&& settings::integer_in(values, key, n) == n
                &&& settings::enum_in(values, key) == Some(stored)
                &&& settings::enum_or(values, key, word) == stored
            },
        },
        !values.contains_key(key) ==> {
            &&& settings::bool_in(values, key, b) == b
            &&& settings::integer_in(values, key, n) == n
            &&& settings::enum_in(values, key) is None
            &&& settings::enum_or(values, key, word) == word
        },
{
}

/// The input that is found for a role has it, and none before it has.
pub proof fn roles_find_the_first(inputs: Seq<SignalView>, role: Seq<char>, from: int)
    requires
        0 <= from,
    ensures
        match input::input_for(inputs, role, from) {
            Some(found) => found.role == role && exists|i: int|
                from <= i < inputs.len() && #[trigger] inputs[i] == found && forall|j: int|
                    from <= j < i ==> (#[trigger] inputs[j]).role != role,
            None => forall|j: int| from <= j < inputs.len() ==> (#[trigger] inputs[j]).role != role,
        },
    decreases inputs.len() - from,
{
    if from < inputs.len() {
        roles_find_the_first(inputs, role, from + 1);
        if inputs[from].role == role {
            assert(inputs[from] == inputs[from]);
        } else if input::input_for(inputs, role, from + 1) is Some {
            let found = input::input_for(inputs, role, from + 1).unwrap();
            let i = choose|i: int|
                from + 1 <= i < inputs.len() && #[trigger] inputs[i] == found && forall|j: int|
                    from + 1 <= j < i ==> (#[trigger] inputs[j]).role != role;
            assert(inputs[i] == found);
            assert forall|j: int| from <= j < i implies (#[trigger] inputs[j]).role != role by {
                if j > from {
                    assert(from + 1 <= j);
                }
            }
        }
    }
}

/// The variable and the signal that are found are the first with their name or
/// number.
pub proof fn variables_are_found(
    variables: Seq<WaveVariable>,
    variable: VariableView,
    from: int,
)
    requires
        0 <= from,
    ensures
        match input::variable_index(variables, variable, from) {
            Some(i) => {
                &&& from <= i < variables.len()
                &&& variables[i].variable_ref@ == variable
                &&& forall|j: int|
                    from <= j < i ==> (#[trigger] variables[j]).variable_ref@ != variable
            },
            None => forall|j: int|
                from <= j < variables.len() ==> (#[trigger] variables[j]).variable_ref@ != variable,
        },
    decreases variables.len() - from,
{
    if from < variables.len() {
        variables_are_found(variables, variable, from + 1);
    }
}

/// The signal that is found is the first with its number.
pub proof fn signals_are_found(signals: Seq<LoadedSignal>, id: SignalId, from: int)
    requires
        0 <= from,
    ensures
        match input::signal_index(signals, id, from) {
            Some(i) => {
                &&& from <= i < signals.len()
                &&& signals[i].id == id
                &&& forall|j: int| from <= j < i ==> (#[trigger] signals[j]).id != id
            },
            None => forall|j: int| from <= j < signals.len() ==> (#[trigger] signals[j]).id != id,
        },
    decreases signals.len() - from,
{
    if from < signals.len() {
        signals_are_found(signals, id, from + 1);
    }
}

/// A resolved input keeps its role and variable, and has the width of its
/// variable and the changes of its variable's signal. Where the variable is not
/// there, or its signal is not loaded, the error names the variable by its path.
pub proof fn inputs_are_resolved(waves: WaveContainer, wanted: InputView)
    ensures
        ({
            let known = exists|i: int|
                0 <= i < waves.variables@.len() && (#[trigger] waves.variables@[i]).variable_ref@
                    == wanted.variable;
            let found = input::resolved(waves, wanted);
            match input::unresolved(waves, wanted) {
                None => {
                    &&& found.role == wanted.role
                    &&& found.variable == wanted.variable
                    &&& exists|i: int, k: int|
                        0 <= i < waves.variables@.len() && 0 <= k < waves.signals@.len() && (
                        #[trigger] waves.variables@[i]).variable_ref@ == wanted.variable && (
                        #[trigger] waves.signals@[k]).id == waves.variables@[i].signal
                            && found.num_bits == waves.variables@[i].num_bits && found.changes
                            == waves.signals@[k].accessor@
                },
                Some(ErrorView::UnknownVariable { variable }) => !known && variable
                    == input::full_path(wanted.variable),
                Some(ErrorView::SignalNotLoaded { variable }) => known && variable
                    == input::full_path(wanted.variable),
                Some(_) => false,
            }
        }),
{
    variables_are_found(waves.variables@, wanted.variable, 0);
    if let Some(i) = input::variable_index(waves.variables@, wanted.variable, 0) {
        let signal = waves.variables@[i].signal;
        signals_are_found(waves.signals@, signal, 0);
        assert(waves.variables@[i].variable_ref@ == wanted.variable);
        if let Some(k) = input::signal_index(waves.signals@, signal, 0) {
            assert(waves.signals@[k].id == signal);
        }
    }
}

/// Of several inputs that cannot be resolved, the first one is told.
pub proof fn first_unresolved_is_told(
    waves: WaveContainer,
    inputs: Seq<InputView>,
    from: int,
    k: int,
)
    requires
        0 <= from <= k < inputs.len(),
        input::unresolved(waves, inputs[k]) is Some,
        forall|i: int| from <= i < k ==> input::unresolved(waves, #[trigger] inputs[i]) is None,
    ensures
        input::first_unresolved(waves, inputs, from) == input::unresolved(waves, inputs[k]),
    decreases k - from,
{
    if from < k {
        assert(input::unresolved(waves, inputs[from]) is None);
        first_unresolved_is_told(waves, inputs, from + 1, k);
    }
}

/// Where every input can be resolved, none is told.
pub proof fn all_inputs_are_resolved(waves: WaveContainer, inputs: Seq<InputView>, from: int)
    requires
        0 <= from,
    ensures
        input::first_unresolved(waves, inputs, from) is None <==> forall|i: int|
            from <= i < inputs.len() ==> input::unresolved(waves, #[trigger] inputs[i]) is None,
        cache::first_unknown(waves, inputs, from) is None <==> forall|i: int|
            from <= i < inputs.len() ==> input::variable_index(
                waves.variables@,
                (#[trigger] inputs[i]).variable,
                0,
            ) is Some,
    decreases inputs.len() - from,
{
    if from < inputs.len() {
        all_inputs_are_resolved(waves, inputs, from + 1);
        assert forall|i: int|
            from <= i < inputs.len() && input::unresolved(waves, inputs[from]) is None
                && input::first_unresolved(waves, inputs, from + 1)
                is None implies input::unresolved(waves, #[trigger] inputs[i]) is None by {
            if i > from {
                assert(from + 1 <= i);
            }
        }
    }
}

/// A line must have exactly one bit; what has more, fewer, or an unknown number
/// is refused by its role, name and width.
pub proof fn lines_have_one_bit(line: SignalView, role: Seq<char>)
    ensures
        input::width_fault(line, role) is None <==> line.num_bits == Some(1u32),
        line.num_bits != Some(1u32) ==> input::width_fault(line, role) == Some(
            ErrorView::NotSingleBit { role, variable: line.variable.name, bits: line.num_bits },
        ),
{
}

/// The number that a digit stands for.
pub open spec fn digit_value(c: char) -> int {
    if '0' <= c && c <= '9' {
        c as int - '0' as int
    } else if 'a' <= c && c <= 'f' {
        c as int - 'a' as int + 10
    } else {
        -1
    }
}

/// The number that digits stand for in a base, the most significant one first.
pub open spec fn number_in(base: int, digits: Seq<char>) -> int
    decreases digits.len(),
{
    if digits.len() == 0 {
        0
    } else {
        base * number_in(base, digits.drop_last()) + digit_value(digits.last())
    }
}

/// A number in decimal reads back as that number; it has decimal digits only,
/// and no leading zero.
pub proof fn decimals_read_back(n: nat)
    ensures
        number_in(10, text::decimal(n)) == n,
        text::decimal(n).len() > 0,
        forall|i: int|
            0 <= i < text::decimal(n).len() ==> '0' <= #[trigger] text::decimal(n)[i] <= '9',
        n > 0 ==> text::decimal(n)[0] != '0',
    decreases n,
{
    let all = text::decimal(n);
    if n < 10 {
        assert(all.drop_last() =~= Seq::<char>::empty());
        assert(number_in(10, Seq::<char>::empty()) == 0);
        assert(all.last() == text::digit_char(n as int));
    } else {
        decimals_read_back(n / 10);
        assert(all.drop_last() =~= text::decimal(n / 10));
        assert(all.last() == text::digit_char((n % 10) as int));
        assert forall|i: int| 0 <= i < all.len() implies '0' <= #[trigger] all[i] <= '9' by {
            if i < all.len() - 1 {
                assert(all[i] == text::decimal(n / 10)[i]);
            }
        }
        assert(all[0] == text::decimal(n / 10)[0]);
    }
}

/// A number in hexadecimal has the given number of digits, and reads back as its
/// lowest bits.
pub proof fn hexadecimals_read_back(n: nat, width: nat)
    requires
        n < power2::pow2(4 * width),
    ensures
        number_in(16, text::hexadecimal(n, width)) == n,
        text::hexadecimal(n, width).len() == width,
        forall|i: int|
            0 <= i < width ==> digit_value(#[trigger] text::hexadecimal(n, width)[i]) >= 0,
    decreases width,
{
    let all = text::hexadecimal(n, width);
    if width == 0 {
        power2::lemma2_to64();
    } else {
        let rest = (width - 1) as nat;
        bits::pow2_next(4 * rest);
        bits::pow2_next(4 * rest + 1);
        bits::pow2_next(4 * rest + 2);
        bits::pow2_next(4 * rest + 3);
        assert(4 * width == 4 * rest + 4);
        hexadecimals_read_back(n / 16, rest);
        assert(all.drop_last() =~= text::hexadecimal(n / 16, rest));
        assert(all.last() == text::digit_char((n % 16) as int));
        assert forall|i: int| 0 <= i < width implies digit_value(#[trigger] all[i]) >= 0 by {
            if i < rest {
                assert(all[i] == text::hexadecimal(n / 16, rest)[i]);
            }
        }
    }
}

/// An integer is shown so that it can be read back: in decimal with its sign,
/// and in hexadecimal as the bits that it has, in as few digits as they take.
/// Text is shown as it is, and unknown values as one letter.
pub proof fn values_are_shown(shown: ValueView)
    ensures
        match shown {
            ValueView::Integer { value, bits } => {
                let decimal = value::formatted(shown, ValueFormat::Decimal);
                let digits = value::formatted(shown, ValueFormat::Hexadecimal).skip(2);
                &&& value >= 0 ==> number_in(10, decimal) == value
                &&& value < 0 ==> decimal[0] == '-' && number_in(10, decimal.skip(1)) == -value
                &&& 1 <= bits <= 64 ==> {
                    &&& value::formatted(shown, ValueFormat::Hexadecimal).take(2) == "0x"@
                    &&& number_in(16, digits) == value % (power2::pow2(bits) as int)
                    &&& 4 * digits.len() >= bits && 4 * digits.len() < bits + 4
                }
            },
            ValueView::Text(words) => forall|format: ValueFormat| #[trigger]
                value::formatted(shown, format) == words,
            ValueView::Undef => forall|format: ValueFormat| #[trigger]
                value::formatted(shown, format) == "x"@,
            ValueView::HighImp => forall|format: ValueFormat| #[trigger]
                value::formatted(shown, format) == "z"@,
            ValueView::DontCare => forall|format: ValueFormat| #[trigger]
                value::formatted(shown, format) == "-"@,
        },
{
    if let ValueView::Integer { value, bits } = shown {
        let decimal = value::formatted(shown, ValueFormat::Decimal);
        if value < 0 {
            decimals_read_back((-value) as nat);
            assert(decimal.skip(1) =~= text::decimal((-value) as nat));
        } else {
            decimals_read_back(value as nat);
        }
        if 1 <= bits <= 64 {
            let width = (bits + 3) / 4;
            let raw = bits::low_bits(value, bits);
            reveal_strlit("0x");
            let hex = value::formatted(shown, ValueFormat::Hexadecimal);
            bits::pow2_monotone(bits, 4 * width);
            vstd::arithmetic::div_mod::lemma_mod_bound(value, power2::pow2(bits) as int);
            hexadecimals_read_back(raw, width);
            assert(hex.skip(2) =~= text::hexadecimal(raw, width));
            assert(hex.take(2) =~= "0x"@);
        }
    }
}

/// What is told of an error names what it is about: the label of the setting,
/// the role of the input, the variable, the key or the name, and the bounds.
pub proof fn errors_tell_what_is_wrong(
    label: Seq<char>,
    other: Seq<char>,
    min: i64,
    max: i64,
    count: u32,
)
    ensures
        error::error_message(ErrorView::MissingSetting { label }) == "Missing setting '"@ + label
            + "'"@,
        error::error_message(ErrorView::SettingOutOfRange { label, min, max }) == "Setting '"@
            + label + "' must be between "@ + text::signed_decimal(min as int) + " and "@
            + text::signed_decimal(max as int),
        error::error_message(ErrorView::InvalidSettingValue { value: other, label })
            == "Invalid value '"@ + other + "' for setting '"@ + label + "'"@,
        error::error_message(ErrorView::WrongSettingType { label }) == "Setting '"@ + label
            + "' has the wrong type"@,
        error::error_message(ErrorView::UnassignedInput { role: label })
            == "No signal assigned to decoder input '"@ + label + "'"@,
        error::error_message(ErrorView::UnknownSettingReference { key: label, setting: other })
            == "Engine parameter '"@ + label + "' references unknown setting '"@ + other + "'"@,
        error::error_message(ErrorView::UnknownEngine { engine: label })
            == "Unknown decoder engine '"@ + label + "'"@,
        error::error_message(ErrorView::MissingParameter { name: label })
            == "Missing engine parameter '"@ + label + "'"@,
        error::error_message(ErrorView::InvalidParameter { name: label }) == "Invalid '"@ + label
            + "' parameter"@,
        error::error_message(
            ErrorView::NotSingleBit { role: label, variable: other, bits: Some(count) },
        ) == "decoder input '"@ + label + "' must be a 1-bit signal, but '"@ + other + "' has "@
            + text::decimal(count as nat) + " bits"@,
        error::error_message(ErrorView::NotSingleBit { role: label, variable: other, bits: None })
            == "decoder input '"@ + label + "' must be a 1-bit signal, but '"@ + other + "' has "@
            + "an unknown number of"@ + " bits"@,
        error::error_message(ErrorView::BitsOutOfRange) == "bits must be between 1 and 64"@,
        error::error_message(ErrorView::NoChannels) == "channels must be at least 1"@,
        error::error_message(ErrorView::TooManyChannels) == "channels must be at most 1024"@,
        error::error_message(ErrorView::LevelModeChannels)
            == "level frame sync mode supports exactly 2 channels"@,
        error::error_message(ErrorView::SlotTooNarrow) == "slot_width must be at least bits"@,
        error::error_message(ErrorView::NonBinaryClock)
            == "biphase clock contains non-binary values"@,
        error::error_message(ErrorView::NotEnoughTransitions)
            == "not enough transitions to recover the bit clock"@,
        error::error_message(ErrorView::NoBitClock) == "could not recover the bit clock"@,
        error::error_message(ErrorView::NoPreambles) == "no S/PDIF / AES3 preambles found"@,
{
}

proof fn value_of_bytes(bytes: Seq<u8>)
    ensures
        input::little_endian(bytes) == 0 <==> forall|i: int|
            0 <= i < bytes.len() ==> #[trigger] bytes[i] == 0,
        input::little_endian(bytes) == 1 <==> bytes.len() > 0 && bytes[0] == 1 && forall|i: int|
            0 < i < bytes.len() ==> #[trigger] bytes[i] == 0,
    decreases bytes.len(),
{
    if bytes.len() > 0 {
        let rest = bytes.drop_first();
        value_of_bytes(rest);
        assert(forall|i: int| 0 <= i < rest.len() ==> #[trigger] rest[i] == bytes[i + 1]);
        if forall|i: int| 0 <= i < rest.len() ==> #[trigger] rest[i] == 0 {
            assert forall|i: int| 0 < i < bytes.len() implies #[trigger] bytes[i] == 0 by {
                assert(rest[i - 1] == 0);
            }
        } else {
            let i = choose|i: int| 0 <= i < rest.len() && #[trigger] rest[i] != 0;
            assert(bytes[i + 1] != 0);
        }
    }
}

/// A line is low where its value is the number 0 and high where it is 1, in any
/// number of bytes, and undefined at any other number. A value that is text is
/// told by its first character alone.
pub proof fn values_are_read_as_bits(value: VariableValue)
    ensures
        match value {
            VariableValue::BigUint(bytes) => {
                let rest = forall|i: int| 0 < i < bytes@.len() ==> #[trigger] bytes@[i] == 0;
                let low = bytes@.len() == 0 || bytes@[0] == 0 && rest;
                let high = bytes@.len() > 0 && bytes@[0] == 1 && rest;
                &&& input::bit_of_value(value) == Bit::Zero <==> low
                &&& input::bit_of_value(value) == Bit::One <==> high
                &&& input::bit_of_value(value) == Bit::Undef <==> !low && !high
            },
            VariableValue::String(words) => {
                let bit = input::bit_of_value(value);
                if words@.len() == 0 {
                    bit == Bit::Undef
                } else {
                    match words@[0] {
                        '0' => bit == Bit::Zero,
                        '1' => bit == Bit::One,
                        'z' | 'Z' => bit == Bit::HighImp,
                        '-' => bit == Bit::DontCare,
                        'w' | 'W' | 'h' | 'H' | 'l' | 'L' => bit == Bit::Weak,
                        _ => bit == Bit::Undef,
                    }
                }
            },
        },
{
    if let VariableValue::BigUint(bytes) = value {
        value_of_bytes(bytes@);
        if bytes@.len() > 0 && bytes@[0] == 0 && forall|i: int|
            0 < i < bytes@.len() ==> #[trigger] bytes@[i] == 0 {
            assert forall|i: int| 0 <= i < bytes@.len() implies #[trigger] bytes@[i] == 0 by {}
        }
    }
}

/// Values of more than 64 bits are shown as their low 64 bits in hexadecimal, and
/// a value without bits as one bit.
pub proof fn widths_are_limited(value: int, bits: nat)
    ensures
        bits > 64 ==> value::formatted(
            (ValueView::Integer { value, bits }),
            ValueFormat::Hexadecimal,
        ) == value::formatted((ValueView::Integer { value, bits: 64 }), ValueFormat::Hexadecimal),
        value::formatted((ValueView::Integer { value, bits: 0 }), ValueFormat::Hexadecimal)
            == value::formatted((ValueView::Integer { value, bits: 1 }), ValueFormat::Hexadecimal),
{
}

/// A range holds as many numbers as there are words of its length: from zero on
/// without a sign, and one more below zero than above it with a sign.
pub proof fn ranges_hold_every_word(range: NumericRange)
    requires
        range.bits > 0,
    ensures
        range.max() - range.min() + 1 == power2::pow2(range.bits as nat),
        !range.signed ==> range.min() == 0,
        range.signed ==> range.min() == -range.max() - 1,
{
    bits::pow2_next((range.bits - 1) as nat);
}

} // verus!
