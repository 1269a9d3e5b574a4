//! What the channel status says, by the tables of AES3 and IEC 60958-3.
use vstd::prelude::*;
use crate::decoders::engines::biphase_audio::blocks;
use crate::decoders::engines::biphase_audio::blocks::Block;
use crate::decoders::engines::biphase_audio::channel_status;
use crate::decoders::engines::biphase_audio::channel_status::{ChannelStatus, Emphasis};
use crate::text;

verus! {

proof fn bits_make_codes(byte: u8)
    by (bit_vector)
    ensures
        byte & 0x0F == byte % 16,
        (byte >> 0u8) & 1 == byte % 2,
        (byte >> 1u8) & 1 == byte / 2 % 2,
        (byte >> 7u8) & 1 == byte / 128,
        (byte >> 0u8) & 1 <= 1,
        (byte >> 1u8) & 1 <= 1,
        (byte >> 2u8) & 1 <= 1,
        (byte >> 3u8) & 1 <= 1,
        (byte >> 4u8) & 1 <= 1,
        (byte >> 5u8) & 1 <= 1,
        (byte >> 6u8) & 1 <= 1,
        (byte >> 7u8) & 1 <= 1,
        byte % 16 == ((byte >> 0u8) & 1) + 2 * ((byte >> 1u8) & 1) + 4 * ((byte >> 2u8) & 1) + 8
            * ((byte >> 3u8) & 1),
        byte % 8 == ((byte >> 0u8) & 1) + 2 * ((byte >> 1u8) & 1) + 4 * ((byte >> 2u8) & 1),
        byte / 4 % 8 == ((byte >> 2u8) & 1) + 2 * ((byte >> 3u8) & 1) + 4 * ((byte >> 4u8) & 1),
        byte / 8 % 8 == ((byte >> 3u8) & 1) + 2 * ((byte >> 4u8) & 1) + 4 * ((byte >> 5u8) & 1),
        byte / 8 % 16 == ((byte >> 3u8) & 1) + 2 * ((byte >> 4u8) & 1) + 4 * ((byte >> 5u8) & 1) + 8
            * ((byte >> 6u8) & 1),
        byte / 64 == ((byte >> 6u8) & 1) + 2 * ((byte >> 7u8) & 1),
{
}

/// The lowest bit of byte 0 tells professional from consumer data, and the next
/// one whether it is audio. Only professional data has a CRC and a scaling
/// flag.
pub proof fn formats_are_told_apart(bytes: Seq<u8>)
    requires
        bytes.len() == 24,
    ensures
        ({
            let status = channel_status::status_of(bytes);
            &&& status.professional <==> bytes[0] % 2 == 1
            &&& status.non_audio <==> bytes[0] / 2 % 2 == 1
            &&& status.scaled <==> bytes[0] % 2 == 1 && bytes[4] >= 128
            &&& bytes[0] % 2 == 0 ==> status.crc_ok is None
            &&& bytes[0] % 2 == 1 ==> (status.crc_ok == Some(true) <==> channel_status::crc_after(
                bytes,
                192,
            ) == 0)
            &&& bytes[0] % 2 == 1 ==> status.crc_ok is Some
        }),
{
    bits_make_codes(bytes[0]);
    bits_make_codes(bytes[4]);
    channel_status::crc_residue(bytes);
}

/// The sample rates of consumer data: the code in the lower half of byte 3, and
/// the extended codes where its highest bit is set.
pub proof fn consumer_rates(bytes: Seq<u8>)
    requires
        bytes.len() == 24,
        bytes[0] % 2 == 0,
    ensures
        ({
            let rate = channel_status::status_of(bytes).sample_rate;
            let code = bytes[3] % 16;
            let plain = bytes[3] < 128;
            &&& rate == Some(44_100u32) <==> plain && code == 0
            &&& rate == Some(48_000u32) <==> plain && code == 2
            &&& rate == Some(32_000u32) <==> plain && code == 3
            &&& rate == Some(22_050u32) <==> plain && code == 4
            &&& rate == Some(384_000u32) <==> plain && code == 5
            &&& rate == Some(24_000u32) <==> plain && code == 6
            &&& rate == Some(88_200u32) <==> plain && code == 8
            &&& rate == Some(768_000u32) <==> plain && code == 9
            &&& rate == Some(96_000u32) <==> plain && code == 10
            &&& rate == Some(176_400u32) <==> plain && code == 12
            &&& rate == Some(352_800u32) <==> plain && code == 13
            &&& rate == Some(192_000u32) <==> plain && code == 14
            &&& rate == Some(128_000u32) <==> !plain && code == 11
            &&& rate == Some(705_600u32) <==> !plain && code == 13
            &&& plain ==> (rate is None <==> code == 1 || code == 7 || code == 11 || code == 15)
            &&& !plain ==> (rate is None <==> code != 11 && code != 13)
        }),
{
    bits_make_codes(bytes[0]);
    bits_make_codes(bytes[3]);
}

/// The word lengths of consumer data: the lower half of byte 4.
pub proof fn consumer_word_lengths(bytes: Seq<u8>)
    requires
        bytes.len() == 24,
        bytes[0] % 2 == 0,
    ensures
        ({
            let length = channel_status::status_of(bytes).word_bits;
            let code = bytes[4] % 16;
            &&& length == Some(20u32) <==> code == 0 || code == 10 || code == 3
            &&& length == Some(16u32) <==> code == 2
            &&& length == Some(18u32) <==> code == 4
            &&& length == Some(19u32) <==> code == 8
            &&& length == Some(17u32) <==> code == 12
            &&& length == Some(24u32) <==> code == 1 || code == 11
            &&& length == Some(22u32) <==> code == 5
            &&& length == Some(23u32) <==> code == 9
            &&& length == Some(21u32) <==> code == 13
            &&& length is None <==> code == 6 || code == 7 || code == 14 || code == 15
        }),
{
    bits_make_codes(bytes[0]);
    bits_make_codes(bytes[4]);
}

/// The emphasis of consumer data: bits 3 to 5 of byte 0 name one only as
/// `1 0 0`.
pub proof fn consumer_emphasis(bytes: Seq<u8>)
    requires
        bytes.len() == 24,
        bytes[0] % 2 == 0,
    ensures
        channel_status::status_of(bytes).emphasis == (if bytes[0] / 8 % 8 == 1 {
            Some(Emphasis::Fifty15)
        } else {
            None
        }),
{
    bits_make_codes(bytes[0]);
}

/// The sample rates of professional data: bits 3 to 6 of byte 4 or, where they
/// name none, the highest two bits of byte 0.
pub proof fn professional_rates(bytes: Seq<u8>)
    requires
        bytes.len() == 24,
        bytes[0] % 2 == 1,
    ensures
        ({
            let rate = channel_status::status_of(bytes).sample_rate;
            let extended = bytes[4] / 8 % 16;
            let basic = bytes[0] / 64;
            let other = extended != 1 && extended != 2 && extended != 3 && extended != 9 && extended
                != 10 && extended != 11;
            &&& rate == Some(24_000u32) <==> extended == 1
            &&& rate == Some(96_000u32) <==> extended == 2
            &&& rate == Some(192_000u32) <==> extended == 3
            &&& rate == Some(22_050u32) <==> extended == 9
            &&& rate == Some(88_200u32) <==> extended == 10
            &&& rate == Some(176_400u32) <==> extended == 11
            &&& rate == Some(44_100u32) <==> other && basic == 1
            &&& rate == Some(48_000u32) <==> other && basic == 2
            &&& rate == Some(32_000u32) <==> other && basic == 3
            &&& rate is None <==> other && basic == 0
        }),
{
    bits_make_codes(bytes[0]);
    bits_make_codes(bytes[4]);
}

/// The word lengths of professional data: bits 3 to 5 of byte 2, and bits 0 to
/// 2, which name the longer range only as `0 0 1`.
pub proof fn professional_word_lengths(bytes: Seq<u8>)
    requires
        bytes.len() == 24,
        bytes[0] % 2 == 1,
    ensures
        ({
            let length = channel_status::status_of(bytes).word_bits;
            let long = bytes[2] % 8 == 4;
            let code = bytes[2] / 8 % 8;
            &&& length == Some(24u32) <==> long && (code == 0 || code == 5)
            &&& length == Some(23u32) <==> long && code == 4
            &&& length == Some(22u32) <==> long && code == 2
            &&& length == Some(21u32) <==> long && code == 6
            &&& length == Some(20u32) <==> (long && code == 1) || (!long && (code == 0 || code
                == 5))
            &&& length == Some(19u32) <==> !long && code == 4
            &&& length == Some(18u32) <==> !long && code == 2
            &&& length == Some(17u32) <==> !long && code == 6
            &&& length == Some(16u32) <==> !long && code == 1
            &&& length is None <==> code == 3 || code == 7
        }),
{
    bits_make_codes(bytes[0]);
    bits_make_codes(bytes[2]);
}

/// The emphasis of professional data: bits 2 to 4 of byte 0.
pub proof fn professional_emphasis(bytes: Seq<u8>)
    requires
        bytes.len() == 24,
        bytes[0] % 2 == 1,
    ensures
        ({
            let emphasis = channel_status::status_of(bytes).emphasis;
            let code = bytes[0] / 4 % 8;
            &&& emphasis == Some(Emphasis::NoEmphasis) <==> code == 1
            &&& emphasis == Some(Emphasis::Fifty15) <==> code == 3
            &&& emphasis == Some(Emphasis::J17) <==> code == 7
        }),
{
    bits_make_codes(bytes[0]);
}

proof fn bits_have_weights(byte: u8)
    by (bit_vector)
    ensures
        (byte >> 0u8) & 1 == byte / 1 % 2,
        (byte >> 1u8) & 1 == byte / 2 % 2,
        (byte >> 2u8) & 1 == byte / 4 % 2,
        (byte >> 3u8) & 1 == byte / 8 % 2,
        (byte >> 4u8) & 1 == byte / 16 % 2,
        (byte >> 5u8) & 1 == byte / 32 % 2,
        (byte >> 6u8) & 1 == byte / 64 % 2,
        (byte >> 7u8) & 1 == byte / 128 % 2,
{
}

/// The bits of the channel status are those of its bytes, from the first byte to
/// the last and from the lowest bit of a byte to the highest.
pub proof fn status_bits_are_in_order(bytes: Seq<u8>, n: int)
    requires
        bytes.len() == 24,
        0 <= n < 192,
    ensures
        ({
            let weight = seq![1u8, 2u8, 4u8, 8u8, 16u8, 32u8, 64u8, 128u8][n % 8];
            channel_status::status_bit(bytes, n) <==> bytes[n / 8] / weight % 2 == 1
        }),
{
    bits_have_weights(bytes[n / 8]);
}

/// The words for an optional part of the summary, behind a space.
pub open spec fn word(said: bool, words: Seq<char>) -> Seq<char> {
    if said {
        " "@ + words
    } else {
        Seq::empty()
    }
}

/// Parts, with a space before each.
spec fn preceded(parts: Seq<Seq<char>>) -> Seq<char>
    decreases parts.len(),
{
    if parts.len() == 0 {
        Seq::empty()
    } else {
        preceded(parts.drop_last()) + " "@ + parts.last()
    }
}

proof fn preceded_in_parts(a: Seq<Seq<char>>, b: Seq<Seq<char>>)
    ensures
        preceded(a + b) == preceded(a) + preceded(b),
    decreases b.len(),
{
    if b.len() == 0 {
        assert(a + b =~= a);
        assert(preceded(a) + preceded(b) =~= preceded(a));
    } else {
        preceded_in_parts(a, b.drop_last());
        assert((a + b).drop_last() =~= a + b.drop_last());
        assert(preceded(a + b) =~= preceded(a) + preceded(b));
    }
}

proof fn one_preceded(part: Seq<char>)
    ensures
        preceded(seq![part]) == " "@ + part,
{
    let parts = seq![part];
    assert(parts.drop_last() =~= Seq::<Seq<char>>::empty());
    assert(preceded(Seq::<Seq<char>>::empty()) =~= Seq::<char>::empty());
    assert(Seq::<char>::empty() + " "@ + part =~= " "@ + part);
}

proof fn joined_is_preceded(first: Seq<char>, rest: Seq<Seq<char>>)
    ensures
        text::joined(seq![first] + rest, " "@) == first + preceded(rest),
    decreases rest.len(),
{
    let all = seq![first] + rest;
    if rest.len() == 0 {
        assert(all =~= seq![first]);
        assert(first + preceded(rest) =~= first);
    } else {
        joined_is_preceded(first, rest.drop_last());
        assert(all.drop_last() =~= seq![first] + rest.drop_last());
        assert(all.last() == rest.last());
        assert(first + preceded(rest.drop_last()) + " "@ + rest.last() =~= first + preceded(rest));
    }
}

/// What the summary says of the samples.
pub open spec fn sample_words(status: ChannelStatus) -> Seq<char> {
    (match status.sample_rate {
        Some(rate) => " "@ + channel_status::rate_text(rate) + (if status.scaled {
            " \u{00f7}1.001"@
        } else {
            Seq::<char>::empty()
        }),
        None => Seq::empty(),
    }) + (match status.word_bits {
        Some(bits) => " "@ + text::decimal(bits as nat) + "-bit"@,
        None => Seq::empty(),
    })
}

/// What the summary remarks.
pub open spec fn remark_words(status: ChannelStatus) -> Seq<char> {
    word(status.emphasis == Some(Emphasis::NoEmphasis), "no emphasis"@) + word(
        status.emphasis == Some(Emphasis::Fifty15),
        "50/15 \u{00b5}s emphasis"@,
    ) + word(status.emphasis == Some(Emphasis::J17), "J.17 emphasis"@) + word(
        status.crc_ok == Some(false),
        "CRC error"@,
    )
}

proof fn samples_are_said(status: ChannelStatus)
    ensures
        preceded(channel_status::sample_parts(status)) == sample_words(status),
{
    let none = Seq::<Seq<char>>::empty();
    let rate = match status.sample_rate {
        Some(rate) => seq![channel_status::scaled_rate_text(status, rate)],
        None => none,
    };
    let bits = match status.word_bits {
        Some(bits) => seq![text::decimal(bits as nat) + "-bit"@],
        None => none,
    };
    assert(channel_status::sample_parts(status) =~= rate + bits);
    preceded_in_parts(rate, bits);
    if let Some(rate) = status.sample_rate {
        one_preceded(channel_status::scaled_rate_text(status, rate));
    }
    if let Some(bits) = status.word_bits {
        one_preceded(text::decimal(bits as nat) + "-bit"@);
    }
    assert(preceded(none) =~= Seq::<char>::empty());
    assert(preceded(rate) + preceded(bits) =~= sample_words(status));
}

proof fn remarks_are_said(status: ChannelStatus)
    ensures
        preceded(channel_status::remark_parts(status)) == remark_words(status),
{
    let none = Seq::<Seq<char>>::empty();
    let emphasis = match status.emphasis {
        Some(Emphasis::NoEmphasis) => seq!["no emphasis"@],
        Some(Emphasis::Fifty15) => seq!["50/15 \u{00b5}s emphasis"@],
        Some(Emphasis::J17) => seq!["J.17 emphasis"@],
        None => none,
    };
    let wrong = if status.crc_ok == Some(false) {
        seq!["CRC error"@]
    } else {
        none
    };
    assert(channel_status::remark_parts(status) =~= emphasis + wrong);
    preceded_in_parts(emphasis, wrong);
    one_preceded("no emphasis"@);
    one_preceded("50/15 \u{00b5}s emphasis"@);
    one_preceded("J.17 emphasis"@);
    one_preceded("CRC error"@);
    assert(preceded(none) =~= Seq::<char>::empty());
    assert(preceded(emphasis) + preceded(wrong) =~= remark_words(status));
}

/// The summary says what the status says, in one order: the format, whether it
/// is audio, the sample rate and its scaling, the word length, the emphasis, and
/// a wrong CRC.
pub proof fn summary_says_everything(status: ChannelStatus)
    ensures
        channel_status::summary_text(status) == (if status.professional {
            "AES3"@
        } else {
            "consumer"@
        }) + word(status.non_audio, "non-PCM"@) + sample_words(status) + remark_words(status),
{
    let kind = if status.professional {
        "AES3"@
    } else {
        "consumer"@
    };
    let audio = if status.non_audio {
        seq!["non-PCM"@]
    } else {
        Seq::<Seq<char>>::empty()
    };
    assert(channel_status::format_parts(status) =~= seq![kind] + audio);
    assert(preceded(audio) == word(status.non_audio, "non-PCM"@)) by {
        one_preceded("non-PCM"@);
        assert(preceded(Seq::<Seq<char>>::empty()) =~= Seq::<char>::empty());
    }
    samples_are_said(status);
    remarks_are_said(status);
    four_parts(
        kind,
        audio,
        channel_status::sample_parts(status),
        channel_status::remark_parts(status),
    );
}

proof fn four_parts(
    first: Seq<char>,
    a: Seq<Seq<char>>,
    b: Seq<Seq<char>>,
    c: Seq<Seq<char>>,
)
    ensures
        text::joined(seq![first] + a + b + c, " "@) == first + preceded(a) + preceded(b) + preceded(
            c,
        ),
{
    assert(seq![first] + a + b + c =~= seq![first] + (a + b + c));
    joined_is_preceded(first, a + b + c);
    preceded_in_parts(a + b, c);
    preceded_in_parts(a, b);
    assert(first + (preceded(a) + preceded(b) + preceded(c)) =~= first + preceded(a) + preceded(b)
        + preceded(c));
}

/// A sample rate is written in kilohertz: its thousands, and as many decimals as
/// it takes.
pub proof fn rates_are_written_in_kilohertz(thousands: u32, a: u32, b: u32, c: u32)
    requires
        thousands <= 4_000_000,
        a < 10,
        b < 10,
        c < 10,
    ensures
        ({
            let rate = (1000 * thousands + 100 * a + 10 * b + c) as u32;
            let whole = text::decimal(thousands as nat);
            let shown = channel_status::rate_text(rate);
            let d = |digit: u32| text::digit_char(digit as int);
            &&& c != 0 ==> shown == whole + seq!['.', d(a), d(b), d(c)] + " kHz"@
            &&& c == 0 && b != 0 ==> shown == whole + seq!['.', d(a), d(b)] + " kHz"@
            &&& c == 0 && b == 0 && a != 0 ==> shown == whole + seq!['.', d(a)] + " kHz"@
            &&& c == 0 && b == 0 && a == 0 ==> shown == whole + " kHz"@
        }),
{
    let rate = (1000 * thousands + 100 * a + 10 * b + c) as u32;
    assert(rate / 1000 == thousands);
    let rest = rate as int % 1000;
    assert(rest == 100 * a + 10 * b + c);
    assert(rest / 100 == a && rest / 10 % 10 == b && rest % 10 == c);
    assert(rest % 100 == 10 * b + c);
    if rest == 0 {
        assert(text::decimal(thousands as nat) + Seq::<char>::empty() =~= text::decimal(
            thousands as nat,
        ));
    }
}

/// A block shows the status of its channels once where they agree, and otherwise
/// that of A and that of B.
pub proof fn blocks_show_both_channels(block: Block)
    ensures
        ({
            let a = channel_status::summary_text(block.status_a);
            let b = channel_status::summary_text(block.status_b);
            &&& a == b ==> blocks::block_words(block) == a
            &&& a != b ==> blocks::block_words(block) == "A: "@ + a + " / B: "@ + b
        }),
{
}

/// The register of a cyclic redundancy check that takes the bits in at its upper
/// end, with the polynomial x^8 + x^4 + x^3 + x^2 + 1 and all bits set at first.
pub open spec fn check_register(bits: Seq<bool>) -> u8
    decreases bits.len(),
{
    if bits.len() == 0 {
        0xFF
    } else {
        let before = check_register(bits.drop_last());
        let shifted = (2 * (before % 128)) as u8;
        if (before >= 128) != bits.last() {
            shifted ^ 0x1D
        } else {
            shifted
        }
    }
}

/// A byte with its bits in the other order.
pub open spec fn mirrored(byte: u8) -> u8 {
    (128 * (byte % 2) + 64 * (byte / 2 % 2) + 32 * (byte / 4 % 2) + 16 * (byte / 8 % 2) + 8 * (byte
        / 16 % 2) + 4 * (byte / 32 % 2) + 2 * (byte / 64 % 2) + byte / 128) as u8
}

proof fn mirrored_step(byte: u8)
    by (bit_vector)
    ensures
        (byte >> 0u8) & 1 == 1 <==> mirrored(byte) >= 128,
        mirrored(byte >> 1u8) == (2 * (mirrored(byte) % 128)) as u8,
        mirrored((byte >> 1u8) ^ 0xB8) == ((2 * (mirrored(byte) % 128)) as u8) ^ 0x1D,
        mirrored(0xFF) == 0xFF,
        mirrored(mirrored(byte)) == byte,
{
}

proof fn check_is_mirrored(bytes: Seq<u8>, n: nat)
    ensures
        mirrored(channel_status::crc_after(bytes, n)) == check_register(
            Seq::new(n, |i: int| channel_status::status_bit(bytes, i)),
        ),
    decreases n,
{
    let bits = Seq::new(n, |i: int| channel_status::status_bit(bytes, i));
    if n == 0 {
        mirrored_step(0xFF);
    } else {
        check_is_mirrored(bytes, (n - 1) as nat);
        mirrored_step(channel_status::crc_after(bytes, (n - 1) as nat));
        assert(bits.drop_last() =~= Seq::new(
            (n - 1) as nat,
            |i: int| channel_status::status_bit(bytes, i),
        ));
    }
}

/// Professional status is sound exactly where its last byte is the check of the
/// 23 bytes before it, taken bit by bit from the first one on, with the bit of
/// the highest power first. Consumer status has no check.
pub proof fn status_is_checked(bytes: Seq<u8>)
    ensures
        channel_status::status_of(bytes).crc_ok == (if bytes[0] % 2 == 1 {
            Some(
                mirrored(bytes[23]) == check_register(
                    Seq::new(184, |i: int| channel_status::status_bit(bytes, i)),
                ),
            )
        } else {
            None
        }),
{
    bits_make_codes(bytes[0]);
    check_is_mirrored(bytes, 184);
    mirrored_step(bytes[23]);
    mirrored_step(channel_status::crc_after(bytes, 184));
}

} // verus!
