//! The channel status that a block carries for each channel.
use vstd::prelude::*;
use crate::text;

verus! {

/// What the channel status says of the pre-emphasis.
#[derive(Debug, Clone, Copy, PartialEq, Eq, Structural)]
pub enum Emphasis {
    /// The channel is stated to have no emphasis.
    NoEmphasis,
    /// 50/15 µs emphasis.
    Fifty15,
    /// CCITT J.17 emphasis.
    J17,
}

/// Parsed channel-status summary for one channel.
#[derive(Debug, Clone, Copy, PartialEq, Eq, Structural)]
pub struct ChannelStatus {
    pub professional: bool,
    pub non_audio: bool,
    pub sample_rate: Option<u32>,
    /// Sample-rate scaling flag (professional byte 4 bit 7): divide by 1.001.
    pub scaled: bool,
    pub word_bits: Option<u32>,
    /// `None` where the emphasis is not indicated.
    pub emphasis: Option<Emphasis>,
    /// `None` for consumer data, which has no CRC.
    pub crc_ok: Option<bool>,
}

/// Bit `i` of a byte. Bit 0 is the least significant one, and the first one
/// transmitted.
pub open spec fn has_bit(byte: u8, i: u8) -> bool {
    (byte >> i) & 1 == 1
}

fn bit(byte: u8, i: u8) -> (set: bool)
    requires
        i < 8,
    ensures
        set == has_bit(byte, i),
{
    (byte >> i) & 1 == 1
}

/// Bit `n` of the channel status, in the order of transmission.
pub open spec fn status_bit(bytes: Seq<u8>, n: int) -> bool {
    has_bit(bytes[n / 8], (n % 8) as u8)
}

/// One step of the CRC's shift register: the reflected polynomial
/// `x^8 + x^4 + x^3 + x^2 + 1`, fed with one bit.
pub open spec fn crc_step(crc: u8, input: bool) -> u8 {
    if has_bit(crc, 0) != input {
        (crc >> 1) ^ 0xB8
    } else {
        crc >> 1
    }
}

/// The shift register after the first `n` bits of the channel status. It starts
/// with all ones.
pub open spec fn crc_after(bytes: Seq<u8>, n: nat) -> u8
    decreases n,
{
    if n == 0 {
        0xFF
    } else {
        crc_step(crc_after(bytes, (n - 1) as nat), status_bit(bytes, n - 1))
    }
}

/// Channel status CRC (Tech 3250 Appendix 1): reflected polynomial
/// `x^8 + x^4 + x^3 + x^2 + 1`, initial all ones, LSB first, over the first 23
/// bytes.
pub fn channel_status_crc(bytes: &[u8; 24]) -> (crc: u8)
    ensures
        crc == crc_after(bytes@, 184),
{
    let mut crc: u8 = 0xFF;
    let mut n: usize = 0;
    while n < 184
        invariant
            n <= 184,
            crc == crc_after(bytes@, n as nat),
        decreases 184 - n,
    {
        let feedback = bit(crc, 0) != bit(bytes[n / 8], (n % 8) as u8);
        crc = crc >> 1;
        if feedback {
            crc = crc ^ 0xB8;
        }
        n += 1;
    }
    crc
}

proof fn byte_shifts_out(crc: u8, byte: u8)
    by (bit_vector)
    ensures
        crc_step(
            crc_step(
                crc_step(
                    crc_step(
                        crc_step(
                            crc_step(
                                crc_step(crc_step(crc, has_bit(byte, 0)), has_bit(byte, 1)),
                                has_bit(byte, 2),
                            ),
                            has_bit(byte, 3),
                        ),
                        has_bit(byte, 4),
                    ),
                    has_bit(byte, 5),
                ),
                has_bit(byte, 6),
            ),
            has_bit(byte, 7),
        ) == 0 <==> crc == byte,
{
}

/// Running the CRC over the whole channel status, its last byte included,
/// leaves zero exactly when that byte is the CRC of the bytes before it.
pub proof fn crc_residue(bytes: Seq<u8>)
    requires
        bytes.len() == 24,
    ensures
        crc_after(bytes, 192) == 0 <==> bytes[23] == crc_after(bytes, 184),
{
    reveal_with_fuel(crc_after, 9);
    byte_shifts_out(crc_after(bytes, 184), bytes[23]);
}

proof fn crc_step_distinguishes(a: u8, b: u8, input: bool)
    by (bit_vector)
    ensures
        a != b ==> crc_step(a, input) != crc_step(b, input),
        crc_step(a, input) != crc_step(a, !input),
{
}

/// The CRC notices a change of any single bit in the bytes it covers.
pub proof fn crc_detects_single_bit_errors(bytes: Seq<u8>, changed: Seq<u8>, at: int, n: nat)
    requires
        0 <= at < n,
        forall|k: int| 0 <= k < n ==> (status_bit(bytes, k) != status_bit(changed, k) <==> k == at),
    ensures
        crc_after(bytes, n) != crc_after(changed, n),
    decreases n,
{
    let last = n - 1;
    let was = crc_after(bytes, last as nat);
    let is = crc_after(changed, last as nat);
    assert(status_bit(bytes, last) != status_bit(changed, last) <==> last == at);
    if at == last {
        same_bits_same_crc(bytes, changed, last as nat);
        crc_step_distinguishes(was, was, status_bit(bytes, last));
    } else {
        crc_detects_single_bit_errors(bytes, changed, at, last as nat);
        crc_step_distinguishes(was, is, status_bit(bytes, last));
    }
}

proof fn same_bits_same_crc(a: Seq<u8>, b: Seq<u8>, n: nat)
    requires
        forall|k: int| 0 <= k < n ==> status_bit(a, k) == status_bit(b, k),
    ensures
        crc_after(a, n) == crc_after(b, n),
    decreases n,
{
    if n > 0 {
        same_bits_same_crc(a, b, (n - 1) as nat);
        assert(status_bit(a, n - 1) == status_bit(b, n - 1));
    }
}

/// Professional byte 0, bits 2 to 4.
pub open spec fn professional_emphasis(byte0: u8) -> Option<Emphasis> {
    match (has_bit(byte0, 2), has_bit(byte0, 3), has_bit(byte0, 4)) {
        (true, false, false) => Some(Emphasis::NoEmphasis),
        (true, true, false) => Some(Emphasis::Fifty15),
        (true, true, true) => Some(Emphasis::J17),
        _ => None,
    }
}

/// Professional byte 0, bits 6 and 7.
pub open spec fn professional_rate(byte0: u8) -> Option<u32> {
    match (has_bit(byte0, 6), has_bit(byte0, 7)) {
        (false, true) => Some(48_000),
        (true, false) => Some(44_100),
        (true, true) => Some(32_000),
        (false, false) => None,
    }
}

/// Professional byte 4, bits 3 to 6.
pub open spec fn extended_rate(byte4: u8) -> Option<u32> {
    match (has_bit(byte4, 3), has_bit(byte4, 4), has_bit(byte4, 5), has_bit(byte4, 6)) {
        (true, false, false, false) => Some(24_000),
        (false, true, false, false) => Some(96_000),
        (true, true, false, false) => Some(192_000),
        (true, false, false, true) => Some(22_050),
        (false, true, false, true) => Some(88_200),
        (true, true, false, true) => Some(176_400),
        _ => None,
    }
}

/// Professional byte 2. Bits 0 to 2 select the 24-bit coding range only as
/// `0 0 1`. Bits 3 to 5 give the length within the range; where they do not
/// indicate one, it is the longest.
pub open spec fn professional_word_bits(byte2: u8) -> Option<u32> {
    let wide = !has_bit(byte2, 0) && !has_bit(byte2, 1) && has_bit(byte2, 2);
    let longest = if wide {
        24u32
    } else {
        20u32
    };
    match (has_bit(byte2, 3), has_bit(byte2, 4), has_bit(byte2, 5)) {
        (false, false, false) => Some(longest),
        (false, false, true) => Some((longest - 1) as u32),
        (false, true, false) => Some((longest - 2) as u32),
        (false, true, true) => Some((longest - 3) as u32),
        (true, false, false) => Some((longest - 4) as u32),
        (true, false, true) => Some(longest),
        (true, true, _) => None,
    }
}

/// Consumer byte 0, bits 3 to 5.
pub open spec fn consumer_emphasis(byte0: u8) -> Option<Emphasis> {
    match (has_bit(byte0, 3), has_bit(byte0, 4), has_bit(byte0, 5)) {
        (true, false, false) => Some(Emphasis::Fifty15),
        _ => None,
    }
}

/// Consumer byte 3: bits 0 to 3, extended by bit 7.
pub open spec fn consumer_rate(byte3: u8) -> Option<u32> {
    let code = byte3 & 0x0F;
    if has_bit(byte3, 7) {
        if code == 11 {
            Some(128_000)
        } else if code == 13 {
            Some(705_600)
        } else {
            None
        }
    } else if code == 0 {
        Some(44_100)
    } else if code == 2 {
        Some(48_000)
    } else if code == 3 {
        Some(32_000)
    } else if code == 4 {
        Some(22_050)
    } else if code == 5 {
        Some(384_000)
    } else if code == 6 {
        Some(24_000)
    } else if code == 8 {
        Some(88_200)
    } else if code == 9 {
        Some(768_000)
    } else if code == 10 {
        Some(96_000)
    } else if code == 12 {
        Some(176_400)
    } else if code == 13 {
        Some(352_800)
    } else if code == 14 {
        Some(192_000)
    } else {
        None
    }
}

/// Consumer byte 4: bit 0 selects the 24-bit coding range, bits 1 to 3 give the
/// length within it.
pub open spec fn consumer_word_bits(byte4: u8) -> Option<u32> {
    let longest = if has_bit(byte4, 0) {
        24u32
    } else {
        20u32
    };
    match (has_bit(byte4, 1), has_bit(byte4, 2), has_bit(byte4, 3)) {
        (false, false, false) => Some(longest),
        (true, false, false) => Some((longest - 4) as u32),
        (false, true, false) => Some((longest - 2) as u32),
        (false, false, true) => Some((longest - 1) as u32),
        (true, false, true) => Some(longest),
        (false, true, true) => Some((longest - 3) as u32),
        (true, true, _) => None,
    }
}

/// What the 24 bytes of channel status say.
pub open spec fn status_of(bytes: Seq<u8>) -> ChannelStatus {
    if has_bit(bytes[0], 0) {
        ChannelStatus {
            professional: true,
            non_audio: has_bit(bytes[0], 1),
            sample_rate: match extended_rate(bytes[4]) {
                Some(rate) => Some(rate),
                None => professional_rate(bytes[0]),
            },
            scaled: has_bit(bytes[4], 7),
            word_bits: professional_word_bits(bytes[2]),
            emphasis: professional_emphasis(bytes[0]),
            crc_ok: Some(crc_after(bytes, 184) == bytes[23]),
        }
    } else {
        ChannelStatus {
            professional: false,
            non_audio: has_bit(bytes[0], 1),
            sample_rate: consumer_rate(bytes[3]),
            scaled: false,
            word_bits: consumer_word_bits(bytes[4]),
            emphasis: consumer_emphasis(bytes[0]),
            crc_ok: None,
        }
    }
}

/// A stated word length is one that a subframe can carry.
pub proof fn stated_word_bits_fit(bytes: Seq<u8>)
    ensures
        status_of(bytes).word_bits matches Some(bits) ==> 16 <= bits <= 24,
{
}

fn parse_professional(bytes: &[u8; 24]) -> (status: ChannelStatus)
    requires
        has_bit(bytes@[0], 0),
    ensures
        status == status_of(bytes@),
{
    let emphasis = match (bit(bytes[0], 2), bit(bytes[0], 3), bit(bytes[0], 4)) {
        (true, false, false) => Some(Emphasis::NoEmphasis),
        (true, true, false) => Some(Emphasis::Fifty15),
        (true, true, true) => Some(Emphasis::J17),
        _ => None,
    };
    let rate = match (bit(bytes[0], 6), bit(bytes[0], 7)) {
        (false, true) => Some(48_000),
        (true, false) => Some(44_100),
        (true, true) => Some(32_000),
        (false, false) => None,
    };
    let sample_rate = match (
        bit(bytes[4], 3),
        bit(bytes[4], 4),
        bit(bytes[4], 5),
        bit(bytes[4], 6),
    ) {
        (true, false, false, false) => Some(24_000),
        (false, true, false, false) => Some(96_000),
        (true, true, false, false) => Some(192_000),
        (true, false, false, true) => Some(22_050),
        (false, true, false, true) => Some(88_200),
        (true, true, false, true) => Some(176_400),
        _ => rate,
    };
    let longest: u32 = if !bit(bytes[2], 0) && !bit(bytes[2], 1) && bit(bytes[2], 2) {
        24
    } else {
        20
    };
    let word_bits = match (bit(bytes[2], 3), bit(bytes[2], 4), bit(bytes[2], 5)) {
        (false, false, false) => Some(longest),
        (false, false, true) => Some(longest - 1),
        (false, true, false) => Some(longest - 2),
        (false, true, true) => Some(longest - 3),
        (true, false, false) => Some(longest - 4),
        (true, false, true) => Some(longest),
        (true, true, _) => None,
    };
    ChannelStatus {
        professional: true,
        non_audio: bit(bytes[0], 1),
        sample_rate,
        scaled: bit(bytes[4], 7),
        word_bits,
        emphasis,
        crc_ok: Some(channel_status_crc(bytes) == bytes[23]),
    }
}

fn parse_consumer(bytes: &[u8; 24]) -> (status: ChannelStatus)
    requires
        !has_bit(bytes@[0], 0),
    ensures
        status == status_of(bytes@),
{
    let emphasis = match (bit(bytes[0], 3), bit(bytes[0], 4), bit(bytes[0], 5)) {
        (true, false, false) => Some(Emphasis::Fifty15),
        _ => None,
    };
    let code: u8 = bytes[3] & 0x0F;
    let sample_rate = if bit(bytes[3], 7) {
        match code {
            11 => Some(128_000),
            13 => Some(705_600),
            _ => None,
        }
    } else {
        match code {
            0 => Some(44_100),
            2 => Some(48_000),
            3 => Some(32_000),
            4 => Some(22_050),
            5 => Some(384_000),
            6 => Some(24_000),
            8 => Some(88_200),
            9 => Some(768_000),
            10 => Some(96_000),
            12 => Some(176_400),
            13 => Some(352_800),
            14 => Some(192_000),
            _ => None,
        }
    };
    let longest: u32 = if bit(bytes[4], 0) {
        24
    } else {
        20
    };
    let word_bits = match (bit(bytes[4], 1), bit(bytes[4], 2), bit(bytes[4], 3)) {
        (false, false, false) => Some(longest),
        (true, false, false) => Some(longest - 4),
        (false, true, false) => Some(longest - 2),
        (false, false, true) => Some(longest - 1),
        (true, false, true) => Some(longest),
        (false, true, true) => Some(longest - 3),
        (true, true, _) => None,
    };
    ChannelStatus {
        professional: false,
        non_audio: bit(bytes[0], 1),
        sample_rate,
        scaled: false,
        word_bits,
        emphasis,
        crc_ok: None,
    }
}

/// Parse the 24 bytes of channel status of one channel.
pub fn parse_channel_status(bytes: &[u8; 24]) -> (status: ChannelStatus)
    ensures
        status == status_of(bytes@),
{
    if bit(bytes[0], 0) {
        parse_professional(bytes)
    } else {
        parse_consumer(bytes)
    }
}

/// The decimals of a sample rate in kilohertz, without trailing zeros.
pub open spec fn rate_fraction(rate: u32) -> Seq<char> {
    let rest = rate as int % 1000;
    let (a, b, c) = (
        text::digit_char(rest / 100),
        text::digit_char(rest / 10 % 10),
        text::digit_char(rest % 10),
    );
    if rest == 0 {
        Seq::empty()
    } else if rest % 100 == 0 {
        seq!['.', a]
    } else if rest % 10 == 0 {
        seq!['.', a, b]
    } else {
        seq!['.', a, b, c]
    }
}

/// A sample rate in kilohertz, with as many decimals as it needs.
pub open spec fn rate_text(rate: u32) -> Seq<char> {
    text::decimal((rate / 1000) as nat) + rate_fraction(rate) + " kHz"@
}

/// Format a sample rate in kilohertz.
pub fn format_sample_rate(rate: u32) -> (shown: String)
    ensures
        shown@ == rate_text(rate),
{
    let mut shown = text::decimal_text((rate / 1000) as u64);
    let rest: u32 = rate % 1000;
    let ghost whole = shown@;
    if rest > 0 {
        shown.push('.');
        shown.push(text::digit_to_char((rest / 100) as u8));
        if rest % 100 > 0 {
            shown.push(text::digit_to_char((rest / 10 % 10) as u8));
            if rest % 10 > 0 {
                shown.push(text::digit_to_char((rest % 10) as u8));
            }
        }
    }
    assert(shown@ =~= whole + rate_fraction(rate));
    shown.append(" kHz");
    shown
}

/// The stated sample rate, with its scaling.
pub open spec fn scaled_rate_text(status: ChannelStatus, rate: u32) -> Seq<char> {
    if status.scaled {
        rate_text(rate) + " \u{00f7}1.001"@
    } else {
        rate_text(rate)
    }
}

/// Whether the data is professional or consumer data, and whether it is audio.
pub open spec fn format_parts(status: ChannelStatus) -> Seq<Seq<char>> {
    let kind = if status.professional {
        "AES3"@
    } else {
        "consumer"@
    };
    if status.non_audio {
        seq![kind, "non-PCM"@]
    } else {
        seq![kind]
    }
}

/// The sample rate and the word length, as far as they are stated.
pub open spec fn sample_parts(status: ChannelStatus) -> Seq<Seq<char>> {
    let rate = match status.sample_rate {
        Some(rate) => seq![scaled_rate_text(status, rate)],
        None => Seq::empty(),
    };
    match status.word_bits {
        Some(bits) => rate.push(text::decimal(bits as nat) + "-bit"@),
        None => rate,
    }
}

/// The emphasis, if it is stated, and a wrong CRC.
pub open spec fn remark_parts(status: ChannelStatus) -> Seq<Seq<char>> {
    let emphasis = match status.emphasis {
        Some(Emphasis::NoEmphasis) => seq!["no emphasis"@],
        Some(Emphasis::Fifty15) => seq!["50/15 \u{00b5}s emphasis"@],
        Some(Emphasis::J17) => seq!["J.17 emphasis"@],
        None => Seq::empty(),
    };
    if status.crc_ok == Some(false) {
        emphasis.push("CRC error"@)
    } else {
        emphasis
    }
}

/// A channel status in words.
pub open spec fn summary_text(status: ChannelStatus) -> Seq<char> {
    text::joined(format_parts(status) + sample_parts(status) + remark_parts(status), " "@)
}

impl ChannelStatus {
    /// This channel status in words.
    pub fn summary(&self) -> (summary: String)
        ensures
            summary@ == summary_text(*self),
    {
        let mut parts: Vec<String> = Vec::new();
        parts.push(
            if self.professional {
                "AES3".to_owned()
            } else {
                "consumer".to_owned()
            },
        );
        if self.non_audio {
            parts.push("non-PCM".to_owned());
        }
        assert(text::texts(parts@) =~= format_parts(*self));
        let ghost format = text::texts(parts@);
        if let Some(rate) = self.sample_rate {
            let mut shown = format_sample_rate(rate);
            if self.scaled {
                shown.append(" \u{00f7}1.001");
            }
            parts.push(shown);
        }
        if let Some(bits) = self.word_bits {
            let mut shown = text::decimal_text(bits as u64);
            shown.append("-bit");
            parts.push(shown);
        }
        assert(text::texts(parts@) =~= format + sample_parts(*self));
        let ghost sample = text::texts(parts@);
        match self.emphasis {
            Some(Emphasis::NoEmphasis) => parts.push("no emphasis".to_owned()),
            Some(Emphasis::Fifty15) => parts.push("50/15 \u{00b5}s emphasis".to_owned()),
            Some(Emphasis::J17) => parts.push("J.17 emphasis".to_owned()),
            None => {},
        }
        if self.crc_ok == Some(false) {
            parts.push("CRC error".to_owned());
        }
        assert(text::texts(parts@) =~= sample + remark_parts(*self));
        text::join_text(&parts, " ")
    }
}

} // verus!
