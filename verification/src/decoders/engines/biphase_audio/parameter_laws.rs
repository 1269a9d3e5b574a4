//! What the engine parameters mean, and when decoding fails.
use vstd::prelude::*;
use crate::decoders::engines::biphase_audio;
use crate::decoders::engines::biphase_audio::clock_recovery;
use crate::decoders::engines::biphase_audio::framing;
use crate::decoders::engines::biphase_audio::half_cells;
use crate::decoders::engines::biphase_audio::transitions;
use crate::decoders::engines::biphase_audio::{ParamsView, WordBits};
#[allow(unused_imports)]
use crate::decoders::error::ErrorView;
use crate::decoders::input;
use crate::decoders::input::SignalView;
use crate::decoders::settings;
use crate::decoders::settings::SettingView;

verus! {

proof fn lengths_differ()
    ensures
        "auto"@ != "16"@,
        "auto"@ != "20"@,
        "auto"@ != "24"@,
        "16"@ != "20"@,
        "16"@ != "24"@,
        "20"@ != "24"@,
{
    reveal_strlit("auto");
    reveal_strlit("16");
    reveal_strlit("20");
    reveal_strlit("24");
    assert("16"@[0] == '1' && "20"@[0] == '2' && "24"@[0] == '2');
    assert("20"@[1] == '0' && "24"@[1] == '4');
}

/// Whether a text is stored for a key.
pub open spec fn has_text(values: Map<Seq<char>, SettingView>, key: Seq<char>) -> bool {
    values.contains_key(key) && values[key] is Enum
}

/// Every typed parameter follows the value that is stored for its own key, and
/// no other. What is not stored has its default: the rows of validity and user
/// bits are off, and all else is on.
pub proof fn parameters_follow_their_keys(
    values: Map<Seq<char>, SettingView>,
    typed: ParamsView,
)
    requires
        biphase_audio::typed_params(values) == Ok::<ParamsView, ErrorView>(typed),
    ensures
        settings::holds(values, "data"@, SettingView::Enum(typed.data)),
        has_text(values, "bitclk"@) ==> settings::holds(
            values,
            "bitclk"@,
            SettingView::Enum(typed.bitclk),
        ),
        !has_text(values, "bitclk"@) ==> typed.bitclk == "bitclk"@,
        typed.word_bits == WordBits::Bits(16) <==> settings::holds(
            values,
            "word_bits"@,
            SettingView::Enum("16"@),
        ),
        typed.word_bits == WordBits::Bits(20) <==> settings::holds(
            values,
            "word_bits"@,
            SettingView::Enum("20"@),
        ),
        typed.word_bits == WordBits::Bits(24) <==> settings::holds(
            values,
            "word_bits"@,
            SettingView::Enum("24"@),
        ),
        typed.word_bits == WordBits::Auto <==> !has_text(values, "word_bits"@) || settings::holds(
            values,
            "word_bits"@,
            SettingView::Enum("auto"@),
        ),
        typed.signed <==> !settings::holds(values, "signed"@, SettingView::Bool(false)),
        typed.show_validity <==> settings::holds(values, "show_validity"@, SettingView::Bool(true)),
        typed.show_user <==> settings::holds(values, "show_user"@, SettingView::Bool(true)),
        typed.show_status <==> !settings::holds(values, "show_status"@, SettingView::Bool(false)),
        typed.show_parity_errors <==> !settings::holds(
            values,
            "show_parity_errors"@,
            SettingView::Bool(false),
        ),
        typed.show_preambles <==> !settings::holds(
            values,
            "show_preambles"@,
            SettingView::Bool(false),
        ),
{
    lengths_differ();
}

/// Parameters are refused exactly where the role of the data line is not named,
/// or where the word length is none that there is.
pub proof fn only_bad_parameters_are_refused(values: Map<Seq<char>, SettingView>)
    ensures
        ({
            let known = !has_text(values, "word_bits"@) || settings::holds(
                values,
                "word_bits"@,
                SettingView::Enum("auto"@),
            ) || settings::holds(values, "word_bits"@, SettingView::Enum("16"@))
                || settings::holds(values, "word_bits"@, SettingView::Enum("20"@))
                || settings::holds(values, "word_bits"@, SettingView::Enum("24"@));
            match biphase_audio::typed_params(values) {
                Ok(_) => has_text(values, "data"@) && known,
                Err(ErrorView::MissingParameter { name }) => name == "data"@ && !has_text(
                    values,
                    "data"@,
                ),
                Err(ErrorView::InvalidParameter { name }) => name == "word_bits"@ && !known
                    && has_text(values, "data"@),
                Err(_) => false,
            }
        }),
{
    lengths_differ();
}

/// Decoding fails exactly where the data line is not assigned, where a line has
/// more or fewer than one bit, where the bit clock takes a value that is no
/// level, where the bit clock cannot be recovered from the data line, and where
/// no subframe is found. A bit clock that is assigned is used, and the data line
/// then need not tell its half period.
pub proof fn decoding_fails_for_a_reason(params: ParamsView, inputs: Seq<SignalView>)
    ensures
        ({
            let data = input::input_for(inputs, params.data, 0);
            let clock = input::input_for(inputs, params.bitclk, 0);
            let line = transitions::settled(transitions::known_levels(data.unwrap().changes));
            match biphase_audio::decoded_rows(params, inputs) {
                Ok(_) => {
                    &&& data is Some && data.unwrap().num_bits == Some(1u32)
                    &&& clock matches Some(clock) ==> clock.num_bits == Some(1u32)
                        && transitions::all_known(clock.changes)
                    &&& clock is None ==> line.len() >= 2 && clock_recovery::half_period_of(
                        half_cells::gaps_of(line),
                    ) is Some
                },
                Err(ErrorView::UnassignedInput { role }) => data is None && role == params.data,
                Err(ErrorView::NotSingleBit { role, .. }) => {
                    ||| data is Some && data.unwrap().num_bits != Some(1u32) && role == params.data
                    ||| clock is Some && clock.unwrap().num_bits != Some(1u32) && role
                        == params.bitclk
                },
                Err(ErrorView::NonBinaryClock) => clock is Some && !transitions::all_known(
                    clock.unwrap().changes,
                ),
                Err(ErrorView::NotEnoughTransitions) => clock is None && line.len() < 2,
                Err(ErrorView::NoBitClock) => clock is None && clock_recovery::half_period_of(
                    half_cells::gaps_of(line),
                ) is None,
                Err(ErrorView::NoPreambles) => {
                    ||| clock is None && half_cells::recovered(line) is Ok && framing::subframes_of(
                        half_cells::recovered(line)->Ok_0.0,
                        Some(half_cells::recovered(line)->Ok_0.1),
                    ).len() == 0
                    ||| clock is Some && framing::subframes_of(
                        transitions::sampled(
                            line,
                            transitions::settled(
                                transitions::known_levels(clock.unwrap().changes),
                            ),
                        ),
                        None,
                    ).len() == 0
                },
                Err(_) => false,
            }
        }),
{
}

} // verus!
