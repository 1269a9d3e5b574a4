//! What the engine parameters mean.
use vstd::prelude::*;
use crate::decoders::engines::clocked_serial;
use crate::decoders::engines::clocked_serial::params;
use crate::decoders::engines::clocked_serial::params::{FrameSyncMode, Justification, ParamsView};
#[allow(unused_imports)]
use crate::decoders::error::ErrorView;
use crate::decoders::input;
use crate::decoders::input::SignalView;
use crate::decoders::settings;
use crate::decoders::settings::SettingView;
use crate::decoders::value;
use crate::decoders::value::{BitOrder, Edge, RowView};

verus! {

/// Whether a text is stored for `key`.
pub open spec fn has_text(values: Map<Seq<char>, SettingView>, key: Seq<char>) -> bool {
    values.contains_key(key) && values[key] is Enum
}

/// Whether a text is stored for `key`, and it is one of two words.
pub open spec fn has_word(
    values: Map<Seq<char>, SettingView>,
    key: Seq<char>,
    word: Seq<char>,
    other: Seq<char>,
) -> bool {
    settings::holds(values, key, SettingView::Enum(word)) || settings::holds(
        values,
        key,
        SettingView::Enum(other),
    )
}

/// Whether a count follows the integer that is stored for `key`: it is that
/// integer, or the closest count, and `default` where none is stored.
pub open spec fn counts(
    values: Map<Seq<char>, SettingView>,
    key: Seq<char>,
    default: u32,
    count: u32,
) -> bool {
    &&& forall|n: i64| #[trigger]
        settings::holds(values, key, SettingView::Integer(n)) ==> if n < 0 {
            count == 0
        } else if n > 0xffff_ffff {
            count == 0xffff_ffff
        } else {
            count == n
        }
    &&& !(values.contains_key(key) && values[key] is Integer) ==> count == default
}

/// Whether a switch follows the boolean that is stored for `key`, and is on
/// where none is stored.
pub open spec fn switches(
    values: Map<Seq<char>, SettingView>,
    key: Seq<char>,
    on: bool,
) -> bool {
    on <==> !settings::holds(values, key, SettingView::Bool(false))
}

proof fn words_differ()
    ensures
        "rising"@ != "falling"@,
        "rising"@ != "fall"@,
        "rise"@ != "falling"@,
        "rise"@ != "fall"@,
        "msb"@ != "lsb"@,
        "msb"@ != "lsb_first"@,
        "msb_first"@ != "lsb"@,
        "msb_first"@ != "lsb_first"@,
        "pulse"@ != "level"@,
        "left"@ != "right"@,
{
    reveal_strlit("rising");
    reveal_strlit("rise");
    reveal_strlit("falling");
    reveal_strlit("fall");
    reveal_strlit("msb");
    reveal_strlit("msb_first");
    reveal_strlit("lsb");
    reveal_strlit("lsb_first");
    reveal_strlit("pulse");
    reveal_strlit("level");
    reveal_strlit("left");
    reveal_strlit("right");
    assert("rising"@[0] == 'r' && "rise"@[0] == 'r');
    assert("falling"@[0] == 'f' && "fall"@[0] == 'f');
    assert("msb"@[0] == 'm' && "msb_first"@[0] == 'm');
    assert("lsb"@[0] == 'l' && "lsb_first"@[0] == 'l');
    assert("pulse"@[0] == 'p' && "level"@[0] == 'l');
    assert("left"@[0] == 'l' && "right"@[0] == 'r');
}

/// Every typed parameter follows the value that is stored for its own key, and
/// no other.
pub proof fn parameters_follow_their_keys(
    values: Map<Seq<char>, SettingView>,
    typed: ParamsView,
)
    requires
        params::typed_params(values) == Ok::<ParamsView, ErrorView>(typed),
    ensures
        settings::holds(values, "clock"@, SettingView::Enum(typed.clock)),
        settings::holds(values, "data"@, SettingView::Enum(typed.data)),
        settings::holds(values, "frame"@, SettingView::Enum(typed.frame)),
        typed.clock_edge == Edge::Falling <==> has_word(
            values,
            "clock_edge"@,
            "falling"@,
            "fall"@,
        ),
        typed.frame_edge == Edge::Falling <==> has_word(
            values,
            "frame_edge"@,
            "falling"@,
            "fall"@,
        ),
        typed.bit_order == BitOrder::LsbFirst <==> has_word(
            values,
            "bit_order"@,
            "lsb"@,
            "lsb_first"@,
        ),
        typed.frame_mode == FrameSyncMode::Level <==> settings::holds(
            values,
            "frame_mode"@,
            SettingView::Enum("level"@),
        ),
        typed.justification == Justification::Right <==> settings::holds(
            values,
            "justification"@,
            SettingView::Enum("right"@),
        ),
        switches(values, "frame_active_high"@, typed.frame_active_high),
        switches(values, "signed"@, typed.signed),
        switches(values, "show_errors"@, typed.show_errors),
        counts(values, "bits"@, 16, typed.bits),
        counts(values, "channels"@, 2, typed.channels),
        counts(values, "offset"@, 0, typed.offset),
        typed.slot_width matches Some(width) ==> width > 0 && counts(
            values,
            "slot_width"@,
            0,
            width,
        ),
        typed.slot_width is None <==> counts(values, "slot_width"@, 0, 0),
{
    words_differ();
    let n = settings::integer_in(values, "slot_width"@, 0);
    if values.contains_key("slot_width"@) && values["slot_width"@] is Integer {
        assert(settings::holds(values, "slot_width"@, SettingView::Integer(n)));
    }
}

/// Parameters are refused exactly where one of the three input roles is not
/// named, or where a text is none of the words for what it chooses; the error
/// names the key.
pub proof fn only_bad_parameters_are_refused(values: Map<Seq<char>, SettingView>)
    ensures
        ({
            let edges = |key: Seq<char>|
                has_text(values, key) ==> has_word(values, key, "rising"@, "rise"@) || has_word(
                    values,
                    key,
                    "falling"@,
                    "fall"@,
                );
            let order = has_text(values, "bit_order"@) ==> has_word(
                values,
                "bit_order"@,
                "msb"@,
                "msb_first"@,
            ) || has_word(values, "bit_order"@, "lsb"@, "lsb_first"@);
            let mode = has_text(values, "frame_mode"@) ==> has_word(
                values,
                "frame_mode"@,
                "pulse"@,
                "level"@,
            );
            let side = has_text(values, "justification"@) ==> has_word(
                values,
                "justification"@,
                "left"@,
                "right"@,
            );
            match params::typed_params(values) {
                Ok(_) => {
                    &&& has_text(values, "clock"@)
                    &&& has_text(values, "data"@)
                    &&& has_text(values, "frame"@)
                    &&& edges("clock_edge"@)
                    &&& edges("frame_edge"@)
                    &&& order
                    &&& mode
                    &&& side
                },
                Err(ErrorView::MissingParameter { name }) => {
                    &&& !has_text(values, name)
                    &&& name == "clock"@ || name == "data"@ || name == "frame"@
                },
                Err(ErrorView::InvalidParameter { name }) => {
                    ||| name == "clock_edge"@ && !edges(name)
                    ||| name == "frame_edge"@ && !edges(name)
                    ||| name == "bit_order"@ && !order
                    ||| name == "frame_mode"@ && !mode
                    ||| name == "justification"@ && !side
                },
                Err(_) => false,
            }
        }),
{
    words_differ();
}

/// Which words name an edge or a bit order.
pub proof fn words_have_one_meaning(word: Seq<char>)
    ensures
        value::edge_named(word) == Some(Edge::Rising) <==> word == "rising"@ || word == "rise"@,
        value::edge_named(word) == Some(Edge::Falling) <==> word == "falling"@ || word == "fall"@,
        value::bit_order_named(word) == Some(BitOrder::MsbFirst) <==> word == "msb"@ || word
            == "msb_first"@,
        value::bit_order_named(word) == Some(BitOrder::LsbFirst) <==> word == "lsb"@ || word
            == "lsb_first"@,
{
    words_differ();
}

/// The parameters are sound exactly where a sample has 1 to 64 bits, a frame 1
/// to 1024 channels (two of them where the level selects the channel), and a
/// slot has room for the sample.
pub proof fn limits_are_exact(params: ParamsView)
    ensures
        params::limits_fault(params) is None <==> {
            &&& 1 <= params.bits <= 64
            &&& 1 <= params.channels <= 1024
            &&& params.frame_mode == FrameSyncMode::Level ==> params.channels == 2
            &&& params.slot_width matches Some(width) ==> width >= params.bits
        },
        params::limits_fault(params) == Some(ErrorView::BitsOutOfRange) <==> params.bits < 1
            || params.bits > 64,
        params::limits_fault(params) == Some(ErrorView::NoChannels) ==> params.channels == 0,
        params::limits_fault(params) == Some(ErrorView::TooManyChannels) ==> params.channels > 1024,
        params::limits_fault(params) == Some(ErrorView::LevelModeChannels) ==> params.frame_mode
            == FrameSyncMode::Level && params.channels != 2,
        params::limits_fault(params) == Some(ErrorView::SlotTooNarrow) ==> params.slot_width is Some
            && params.slot_width.unwrap() < params.bits,
{
}

/// Decoding fails exactly where the parameters are out of their limits, where an
/// input is not assigned, and where one has more or fewer than one bit: the clock
/// is looked at before the frame sync, and that before the data line. Otherwise
/// every input is read as what its parameter names.
pub proof fn decoding_fails_for_a_reason(params: ParamsView, inputs: Seq<SignalView>)
    ensures
        ({
            let clock = input::input_for(inputs, params.clock, 0);
            let frame = input::input_for(inputs, params.frame, 0);
            let data = input::input_for(inputs, params.data, 0);
            let limits = params::limits_fault(params);
            let decoded = clocked_serial::decoded_rows(params, inputs);
            if limits is Some {
                decoded == Err::<Seq<RowView>, ErrorView>(limits.unwrap())
            } else if clock is None {
                decoded == Err::<Seq<RowView>, ErrorView>(
                    ErrorView::UnassignedInput { role: params.clock },
                )
            } else if frame is None {
                decoded == Err::<Seq<RowView>, ErrorView>(
                    ErrorView::UnassignedInput { role: params.frame },
                )
            } else if data is None {
                decoded == Err::<Seq<RowView>, ErrorView>(
                    ErrorView::UnassignedInput { role: params.data },
                )
            } else if clock.unwrap().num_bits != Some(1u32) {
                decoded matches Err(ErrorView::NotSingleBit { role, .. }) && role == params.clock
            } else if frame.unwrap().num_bits != Some(1u32) {
                decoded matches Err(ErrorView::NotSingleBit { role, .. }) && role == params.frame
            } else if data.unwrap().num_bits != Some(1u32) {
                decoded matches Err(ErrorView::NotSingleBit { role, .. }) && role == params.data
            } else {
                &&& decoded is Ok
                &&& clocked_serial::changes_of(params, inputs).clock == clock.unwrap().changes
                &&& clocked_serial::changes_of(params, inputs).frame == frame.unwrap().changes
                &&& clocked_serial::changes_of(params, inputs).data == data.unwrap().changes
            }
        }),
{
}

} // verus!
