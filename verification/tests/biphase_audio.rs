//! Tests of the biphase-mark audio engine.
use std::io::Cursor;

use libsurfer::decoders::engines::biphase_audio::channel_status::{
    channel_status_crc, format_sample_rate, parse_channel_status,
};
use libsurfer::decoders::engines::biphase_audio::clock_recovery::estimate_half_period;
use libsurfer::decoders::engines::biphase_audio::framing::{
    classify_header, flush_preceding_unknowns, match_preamble, HeaderKind,
};
use libsurfer::decoders::engines::biphase_audio::transitions::sample_half_cells;
use libsurfer::decoders::engines::biphase_audio::{
    BiphaseAudioEngine, BiphaseAudioParams, Preamble, WordBits,
};
use libsurfer::decoders::error::DecoderError;
use libsurfer::decoders::input::{
    resolve_inputs, DecoderContext, DecoderInput, LoadedSignal, SignalAccessor, SignalId,
    VariableRef, VariableValue, WaveContainer, WaveVariable,
};
use libsurfer::decoders::settings::DecoderSettings;
use libsurfer::decoders::value::{DecodedData, DecodedValue};

/// The three preamble patterns as eight line states.
const PREAMBLES: [(Preamble, [u8; 8]); 3] = [
    (Preamble::X, [1, 1, 1, 0, 0, 0, 1, 0]),
    (Preamble::Y, [1, 1, 1, 0, 0, 1, 0, 0]),
    (Preamble::Z, [1, 1, 1, 0, 1, 0, 0, 0]),
];

/// The waveform in VCD bytes, with the changes of the named variables loaded.
fn load_container_with_signals(bytes: Vec<u8>, names: &[&str]) -> WaveContainer {
    let mut waves =
        wellen::simple::read_from_reader(Cursor::new(bytes)).expect("failed to read waveform");
    let vars: Vec<(String, Option<u32>, wellen::SignalRef)> = waves
        .hierarchy()
        .all_vars()
        .map(|var| {
            let var = &waves.hierarchy()[var];
            (
                var.full_name(waves.hierarchy()),
                var.length(waves.hierarchy()),
                var.signal_ref(),
            )
        })
        .collect();
    let refs: Vec<wellen::SignalRef> = vars
        .iter()
        .filter(|(name, _, _)| names.contains(&name.as_str()))
        .map(|(_, _, signal)| *signal)
        .collect();
    waves.load_signals(&refs);

    let signals = refs
        .iter()
        .map(|signal| {
            let changes = waves
                .get_signal(*signal)
                .expect("signal is loaded")
                .iter_changes()
                .map(|(index, value)| {
                    let bits = value.to_bit_string().expect("bit vector");
                    let value = if bits.chars().all(|bit| bit == '0' || bit == '1') {
                        let number = num::BigUint::parse_bytes(bits.as_bytes(), 2)
                            .expect("binary number");
                        VariableValue::BigUint(number.to_bytes_le())
                    } else {
                        VariableValue::String(bits)
                    };
                    (waves.time_table()[index as usize], value)
                })
                .collect();
            LoadedSignal {
                id: SignalId(signal.index()),
                accessor: SignalAccessor::new(changes).expect("changes are in time order"),
            }
        })
        .collect();
    let variables = vars
        .into_iter()
        .map(|(name, num_bits, signal)| WaveVariable {
            variable_ref: VariableRef::from_hierarchy_string(&name),
            num_bits,
            signal: SignalId(signal.index()),
        })
        .collect();
    WaveContainer { variables, signals }
}

fn raw_data_vcd(changes: &str) -> String {
    format!(
        "$timescale 1ns $end\n\
         $scope module tb $end\n\
         $var wire 1 c data $end\n\
         $upscope $end\n\
         $enddefinitions $end\n\
         {changes}"
    )
}

fn raw_data_and_clock_vcd(changes: &str) -> String {
    format!(
        "$timescale 1ns $end\n\
         $scope module tb $end\n\
         $var wire 1 c data $end\n\
         $var wire 1 k bitclk $end\n\
         $upscope $end\n\
         $enddefinitions $end\n\
         {changes}"
    )
}

/// Encode a half-cell level sequence as a VCD where each half-cell lasts
/// `half_period` time units. A terminating transition is appended so that
/// the final real half-cell's group is complete.
fn bmc_vcd(half_cells: &[u8], half_period: u64) -> String {
    let mut changes = String::new();
    let mut last: Option<u8> = None;
    for (index, level) in half_cells.iter().enumerate() {
        if last != Some(*level) {
            changes.push_str(&format!("#{}\n{}c\n", index as u64 * half_period, level));
            last = Some(*level);
        }
    }
    changes.push_str(&format!(
        "#{}\n{}c\n",
        half_cells.len() as u64 * half_period,
        1 - last.unwrap_or(0)
    ));
    raw_data_vcd(&changes)
}

/// Like [`bmc_vcd`], but each change time is offset by a deterministic
/// pseudo-random jitter of up to `jitter` time units.
fn jittered_bmc_vcd(half_cells: &[u8], half_period: u64, jitter: i64) -> String {
    let mut changes = String::new();
    let mut last: Option<u8> = None;
    let mut last_time = 0i64;
    let mut change_index = 0i64;
    for (index, level) in half_cells.iter().enumerate() {
        if last != Some(*level) {
            let offset = (change_index * 7) % (2 * jitter + 1) - jitter;
            change_index += 1;
            last_time = index as i64 * half_period as i64 + offset;
            changes.push_str(&format!("#{}\n{}c\n", last_time, level));
            last = Some(*level);
        }
    }
    changes.push_str(&format!(
        "#{}\n{}c\n",
        last_time + half_period as i64,
        1 - last.unwrap_or(0)
    ));
    raw_data_vcd(&changes)
}

/// Like [`bmc_vcd`], but with the line held at 0 for `lead_in` time units
/// before the first half-cell, as captures that idle before the stream
/// starts do.
fn bmc_vcd_with_lead_in(half_cells: &[u8], half_period: u64, lead_in: u64) -> String {
    let mut changes = String::from("#0\n0c\n");
    let mut last = Some(0u8);
    for (index, level) in half_cells.iter().enumerate() {
        if last != Some(*level) {
            changes.push_str(&format!(
                "#{}\n{}c\n",
                lead_in + index as u64 * half_period,
                level
            ));
            last = Some(*level);
        }
    }
    changes.push_str(&format!(
        "#{}\n{}c\n",
        lead_in + half_cells.len() as u64 * half_period,
        1 - last.unwrap_or(0)
    ));
    raw_data_vcd(&changes)
}

/// Like [`bmc_vcd`], but the changes with indices `start..start + len`
/// are shifted half a period earlier, as a clocked transmitter with a
/// one-tick-early cell enable produces. This yields the 0.5 and 1.5
/// half-period gaps that would otherwise defeat the gap classifier.
fn glitched_bmc_vcd(half_cells: &[u8], half_period: u64, start: usize, len: usize) -> String {
    let mut changes = String::new();
    let mut last: Option<u8> = None;
    let mut change_index = 0usize;
    for (index, level) in half_cells.iter().enumerate() {
        if last != Some(*level) {
            let mut time = index as u64 * half_period;
            if (start..start + len).contains(&change_index) {
                time -= half_period / 2;
            }
            change_index += 1;
            changes.push_str(&format!("#{time}\n{level}c\n"));
            last = Some(*level);
        }
    }
    changes.push_str(&format!(
        "#{}\n{}c\n",
        half_cells.len() as u64 * half_period,
        1 - last.unwrap_or(0)
    ));
    raw_data_vcd(&changes)
}

/// Encode a half-cell sequence with a bit clock that toggles on every
/// half-cell boundary. Data changes are emitted before clock edges that
/// share their timestamp, so each edge samples the new half-cell.
fn bmc_bitclk_vcd(half_cells: &[u8], half_period: u64) -> String {
    let mut events: Vec<(u64, bool, char, u8)> = Vec::new();
    let mut last: Option<u8> = None;
    for (index, level) in half_cells.iter().enumerate() {
        if last != Some(*level) {
            events.push((index as u64 * half_period, false, 'c', *level));
            last = Some(*level);
        }
    }
    events.push((
        half_cells.len() as u64 * half_period,
        false,
        'c',
        1 - last.unwrap_or(0),
    ));
    for index in 0..=half_cells.len() {
        events.push((index as u64 * half_period, true, 'k', (index % 2) as u8));
    }
    events.sort_by_key(|(time, is_clock, _, _)| (*time, *is_clock));
    let mut changes = String::new();
    for (time, _, id, level) in events {
        changes.push_str(&format!("#{time}\n{level}{id}\n"));
    }
    raw_data_and_clock_vcd(&changes)
}

fn append_preamble(preamble: Preamble, level: &mut u8, half_cells: &mut Vec<u8>) {
    let (_, pattern) = PREAMBLES
        .iter()
        .find(|(candidate, _)| *candidate == preamble)
        .expect("known preamble");
    // The first preamble state must differ from the previous line state.
    let chosen = if *level == pattern[0] {
        pattern.map(|state| 1 - state)
    } else {
        *pattern
    };
    half_cells.extend_from_slice(&chosen);
    *level = *chosen.last().expect("pattern is non-empty");
}

/// Corrupt the encoded preamble at a subframe boundary into a
/// four-half-cell opening run while retaining the eight-half-cell
/// preamble length. This reproduces the historic non-standard signatures.
fn malform_preamble(half_cells: &mut [u8], start: usize) {
    half_cells[start + 3] = 1 - half_cells[start + 3];
}

fn append_bits(bits: &[u8], level: &mut u8, half_cells: &mut Vec<u8>) {
    for bit in bits {
        *level = 1 - *level; // boundary transition
        half_cells.push(*level);
        if *bit == 1 {
            *level = 1 - *level; // mid-cell transition
        }
        half_cells.push(*level);
    }
}

/// Build slots 4-31 for a subframe.
fn subframe_bits(
    sample: i64,
    word_bits: u32,
    validity: u8,
    user: u8,
    channel_status: u8,
) -> [u8; 28] {
    let mut bits = [0u8; 28];
    let word_bits = word_bits.clamp(16, 24);
    let first = (24 - word_bits) as usize;
    let raw = sample as u64;
    for offset in 0..word_bits {
        bits[first + offset as usize] = ((raw >> offset) & 1) as u8;
    }
    bits[24] = validity; // slot 28
    bits[25] = user; // slot 29
    bits[26] = channel_status; // slot 30
    let ones: u32 = bits[..27].iter().map(|bit| u32::from(*bit)).sum();
    bits[27] = (ones % 2) as u8; // even parity over slots 4-31
    bits
}

fn encode_subframe(
    preamble: Preamble,
    bits: &[u8; 28],
    level: &mut u8,
    half_cells: &mut Vec<u8>,
) {
    append_preamble(preamble, level, half_cells);
    append_bits(bits, level, half_cells);
}

fn status_bit(status: &[u8; 24], frame: usize) -> u8 {
    (status[frame / 8] >> (frame % 8)) & 1
}

/// Encode a complete block: channel A uses `Z`/`X` preambles, channel B
/// uses `Y`; `sample(frame)` returns the (left, right) samples.
fn encode_block(
    status_a: &[u8; 24],
    status_b: &[u8; 24],
    frames: usize,
    sample: impl Fn(usize) -> (i64, i64),
    word_bits: u32,
    level: &mut u8,
    half_cells: &mut Vec<u8>,
) {
    for frame in 0..frames {
        let (left, right) = sample(frame);
        let preamble = if frame == 0 { Preamble::Z } else { Preamble::X };
        encode_subframe(
            preamble,
            &subframe_bits(left, word_bits, 0, 0, status_bit(status_a, frame)),
            level,
            half_cells,
        );
        encode_subframe(
            Preamble::Y,
            &subframe_bits(right, word_bits, 0, 0, status_bit(status_b, frame)),
            level,
            half_cells,
        );
    }
}

/// Consumer channel status with the given byte-3 sample-rate code and
/// byte-4 word-length code (bit 0 selects the 24-bit coding range).
fn consumer_status(rate_code: u8, word_len_code: u8, max_24: bool) -> [u8; 24] {
    let mut status = [0u8; 24];
    status[3] = rate_code;
    status[4] = word_len_code << 1 | u8::from(max_24);
    status
}

fn load_container(vcd: &str) -> WaveContainer {
    load_container_with_signals(vcd.as_bytes().to_vec(), &["tb.data"])
}

fn params(word_bits: WordBits) -> BiphaseAudioParams {
    BiphaseAudioParams {
        data: "data".to_string(),
        bitclk: "bitclk".to_string(),
        word_bits,
        signed: true,
        show_validity: false,
        show_user: false,
        show_status: true,
        show_parity_errors: true,
        show_preambles: true,
    }
}

fn decode(vcd: &str, params: BiphaseAudioParams) -> DecodedData {
    decode_container(&load_container(vcd), params)
}

/// Like [`decode`], but returns the decoder error instead of panicking, so
/// robustness tests can accept malformed input.
fn try_decode(vcd: &str, params: BiphaseAudioParams) -> Result<DecodedData, DecoderError> {
    let container = load_container(vcd);
    let inputs = vec![DecoderInput {
        role: "data".to_string(),
        variable_ref: VariableRef::from_hierarchy_string("tb.data"),
    }];
    let resolved = resolve_inputs(&container, &inputs).expect("resolve inputs");
    BiphaseAudioEngine.decode_params(
        &params,
        &DecoderContext {
            inputs: &resolved,
            settings: &DecoderSettings::default(),
        },
    )
}

fn decode_container(container: &WaveContainer, params: BiphaseAudioParams) -> DecodedData {
    let inputs = vec![DecoderInput {
        role: "data".to_string(),
        variable_ref: VariableRef::from_hierarchy_string("tb.data"),
    }];
    let resolved = resolve_inputs(container, &inputs).expect("resolve inputs");
    BiphaseAudioEngine
        .decode_params(
            &params,
            &DecoderContext {
                inputs: &resolved,
                settings: &DecoderSettings::default(),
            },
        )
        .expect("decoding failed")
}

fn decode_with_clock(container: &WaveContainer, params: BiphaseAudioParams) -> DecodedData {
    let inputs = vec![
        DecoderInput {
            role: "data".to_string(),
            variable_ref: VariableRef::from_hierarchy_string("tb.data"),
        },
        DecoderInput {
            role: "bitclk".to_string(),
            variable_ref: VariableRef::from_hierarchy_string("tb.bitclk"),
        },
    ];
    let resolved = resolve_inputs(container, &inputs).expect("resolve inputs");
    BiphaseAudioEngine
        .decode_params(
            &params,
            &DecoderContext {
                inputs: &resolved,
                settings: &DecoderSettings::default(),
            },
        )
        .expect("decoding failed")
}

fn numeric(value: &DecodedValue) -> i64 {
    match value {
        DecodedValue::Integer { value, .. } => *value,
        other => panic!("expected an integer value, got {other:?}"),
    }
}

#[test]
fn decodes_stereo_frame() {
    let mut level = 0u8;
    let mut half = Vec::new();
    let a = subframe_bits(0x123456, 24, 0, 0, 0);
    let b = subframe_bits(-2, 24, 0, 1, 1);
    encode_subframe(Preamble::X, &a, &mut level, &mut half);
    encode_subframe(Preamble::Y, &b, &mut level, &mut half);

    let decoded = decode(&bmc_vcd(&half, 4), params(WordBits::Bits(24)));

    assert_eq!(decoded.rows.len(), 5); // A, B, status, errors, preamble
    assert_eq!(decoded.rows[0].name, "A");
    assert_eq!(numeric(&decoded.rows[0].items[0].value), 0x123456);
    assert_eq!(decoded.rows[1].name, "B");
    assert_eq!(numeric(&decoded.rows[1].items[0].value), -2);
    assert_eq!(decoded.rows[2].name, "status");
    assert!(decoded.rows[3].items.is_empty());
    assert_eq!(decoded.rows[4].name, "preamble");
    assert_eq!(
        decoded.rows[4].items[0].value,
        DecodedValue::text("Preamble M")
    );
    assert_eq!(
        decoded.rows[4].items[1].value,
        DecodedValue::text("Preamble W")
    );
}

#[test]
fn flags_unknown_preamble_at_expected_position() {
    // The third subframe has a four-half-cell preamble opening, one of
    // the historic malformed signatures. Its position is already framed
    // by the neighboring recognized headers, so name the fault, assign
    // the subframe to the expected channel, and keep decoding.
    let mut level = 0u8;
    let mut half = Vec::new();
    let a1 = subframe_bits(0x111111, 24, 0, 0, 0);
    let b1 = subframe_bits(0x222222, 24, 0, 0, 0);
    let a2 = subframe_bits(0x333333, 24, 0, 0, 0);
    let b2 = subframe_bits(0x444444, 24, 0, 0, 0);
    encode_subframe(Preamble::Z, &a1, &mut level, &mut half);
    encode_subframe(Preamble::Y, &b1, &mut level, &mut half);
    encode_subframe(Preamble::X, &a2, &mut level, &mut half);
    encode_subframe(Preamble::Y, &b2, &mut level, &mut half);
    malform_preamble(&mut half, 2 * 64);

    let decoded = decode(&bmc_vcd(&half, 4), params(WordBits::Bits(24)));
    let labels: Vec<&str> = decoded.rows[4]
        .items
        .iter()
        .map(|item| match &item.value {
            DecodedValue::Text(label) => label.as_str(),
            other => panic!("expected preamble text, got {other:?}"),
        })
        .collect();

    assert_eq!(
        labels,
        ["Preamble B", "Preamble W", "Unknown Preamble", "Preamble W"]
    );
    // The capture also ends mid-block, so the errors row carries both the
    // unknown-preamble fault and a final block-count error, in time order.
    assert_eq!(decoded.rows[3].items.len(), 2);
    assert_eq!(
        decoded.rows[3].items[0].value,
        DecodedValue::text("block count")
    );
    assert_eq!(
        decoded.rows[3].items[1].value,
        DecodedValue::text("Unknown Preamble")
    );
    assert_eq!(
        decoded.rows[0]
            .items
            .iter()
            .map(|item| numeric(&item.value))
            .collect::<Vec<_>>(),
        [0x111111, 0x333333]
    );
    assert_eq!(
        decoded.rows[1]
            .items
            .iter()
            .map(|item| numeric(&item.value))
            .collect::<Vec<_>>(),
        [0x222222, 0x444444]
    );

    let mut hidden = params(WordBits::Bits(24));
    hidden.show_preambles = false;
    let decoded = decode(&bmc_vcd(&half, 4), hidden);
    assert_eq!(decoded.rows.len(), 4);
    assert!(
        decoded.rows[3]
            .items
            .iter()
            .any(|item| item.value == DecodedValue::text("Unknown Preamble"))
    );
}

#[test]
fn assigns_unrecognized_preamble_before_first_anchor() {
    // The malformed header precedes every recognized preamble. Its
    // channel is resolved once the next header at the expected cadence
    // frames the unknown position, so its payload is not discarded.
    let mut level = 0u8;
    let mut half = Vec::new();
    let a0 = subframe_bits(0x111111, 24, 0, 0, 0);
    let b1 = subframe_bits(0x222222, 24, 0, 0, 0);
    let a2 = subframe_bits(0x333333, 24, 0, 0, 0);
    let b2 = subframe_bits(0x444444, 24, 0, 0, 0);
    encode_subframe(Preamble::X, &a0, &mut level, &mut half);
    encode_subframe(Preamble::Y, &b1, &mut level, &mut half);
    encode_subframe(Preamble::X, &a2, &mut level, &mut half);
    encode_subframe(Preamble::Y, &b2, &mut level, &mut half);
    malform_preamble(&mut half, 0);

    let decoded = decode(&bmc_vcd(&half, 4), params(WordBits::Bits(24)));
    let labels: Vec<&str> = decoded.rows[4]
        .items
        .iter()
        .map(|item| match &item.value {
            DecodedValue::Text(label) => label.as_str(),
            other => panic!("expected preamble text, got {other:?}"),
        })
        .collect();

    assert_eq!(
        labels,
        ["Unknown Preamble", "Preamble W", "Preamble M", "Preamble W"]
    );
    assert_eq!(
        decoded.rows[3].items[0].value,
        DecodedValue::text("Unknown Preamble")
    );
    assert_eq!(
        decoded.rows[0]
            .items
            .iter()
            .map(|item| numeric(&item.value))
            .collect::<Vec<_>>(),
        [0x111111, 0x333333]
    );
    assert_eq!(
        decoded.rows[1]
            .items
            .iter()
            .map(|item| numeric(&item.value))
            .collect::<Vec<_>>(),
        [0x222222, 0x444444]
    );
}

#[test]
fn labels_unanchored_unknown_preamble_cadence() {
    // Without any recognized preamble, audio channels cannot be resolved.
    // A repeated 64-half-cell header cadence is nevertheless reported as
    // an explicit Unknown Preamble fault rather than being discarded.
    let mut level = 0u8;
    let mut half = Vec::new();
    let a = subframe_bits(0x111111, 24, 0, 0, 0);
    let b = subframe_bits(0x222222, 24, 0, 0, 0);
    encode_subframe(Preamble::X, &a, &mut level, &mut half);
    encode_subframe(Preamble::Y, &b, &mut level, &mut half);
    malform_preamble(&mut half, 0);
    malform_preamble(&mut half, 64);

    let decoded = decode(&bmc_vcd(&half, 4), params(WordBits::Bits(24)));
    let labels: Vec<&str> = decoded.rows[4]
        .items
        .iter()
        .map(|item| match &item.value {
            DecodedValue::Text(label) => label.as_str(),
            other => panic!("expected preamble text, got {other:?}"),
        })
        .collect();

    assert_eq!(labels, ["Unknown Preamble", "Unknown Preamble"]);
    assert!(decoded.rows[0].items.is_empty());
    assert!(decoded.rows[1].items.is_empty());
    assert_eq!(decoded.rows[3].items.len(), 2);
    assert_eq!(
        decoded.rows[3].items[0].value,
        DecodedValue::text("Unknown Preamble")
    );
    assert_eq!(
        decoded.rows[3].items[1].value,
        DecodedValue::text("Unknown Preamble")
    );
}

#[test]
fn reports_word_length_assumption_without_channel_status() {
    // Without a complete channel-status block, `auto` assumes 24-bit;
    // that assumption is surfaced on the status row.
    let mut level = 0u8;
    let mut half = Vec::new();
    let a = subframe_bits(1, 24, 0, 0, 0);
    encode_subframe(Preamble::X, &a, &mut level, &mut half);

    let decoded = decode(&bmc_vcd(&half, 4), params(WordBits::Auto));

    assert_eq!(
        decoded.rows[2].items[0].value,
        DecodedValue::text("word length: 24-bit assumed (no channel status)")
    );
}

#[test]
fn decodes_all_word_lengths() {
    // Values are two's complement, so a set MSB means a negative sample.
    for (word_bits, sample, expected) in [
        (16u32, -1234i64, -1234i64),
        (20, 0xABCDE, 0xABCDE - (1 << 20)),
        (24, 0x123456, 0x123456),
    ] {
        let mut level = 0u8;
        let mut half = Vec::new();
        let a = subframe_bits(sample, word_bits, 0, 0, 0);
        encode_subframe(Preamble::X, &a, &mut level, &mut half);

        let decoded = decode(&bmc_vcd(&half, 3), params(WordBits::Bits(word_bits)));

        assert_eq!(
            numeric(&decoded.rows[0].items[0].value),
            expected,
            "wrong value for {word_bits}-bit"
        );
    }
}

#[test]
fn decodes_all_channel_status_word_lengths() {
    // Every word length the channel-status tables can declare, including
    // the 17-19 and 21-23 lengths that are not directly selectable.
    // (max_24, byte-4 word-length code, expected bits)
    for (max_24, code, word_bits) in [
        (true, 0u8, 24u32),
        (true, 1, 20),
        (true, 2, 22),
        (true, 4, 23),
        (true, 5, 24),
        (true, 6, 21),
        (false, 0, 20),
        (false, 1, 16),
        (false, 2, 18),
        (false, 4, 19),
        (false, 5, 20),
        (false, 6, 17),
    ] {
        let status = consumer_status(0x02, code, max_24);
        let positive = 0x2_3456 & ((1i64 << (word_bits - 1)) - 1);
        let negative = -positive;
        let mut level = 0u8;
        let mut half = Vec::new();
        encode_block(
            &status,
            &status,
            192,
            |_| (positive, negative),
            word_bits,
            &mut level,
            &mut half,
        );

        let decoded = decode(&bmc_vcd(&half, 4), params(WordBits::Auto));

        assert_eq!(
            numeric(&decoded.rows[0].items[0].value),
            positive,
            "wrong value for {word_bits}-bit (max_24={max_24}, code={code})"
        );
        assert_eq!(
            numeric(&decoded.rows[1].items[0].value),
            negative,
            "wrong negative value for {word_bits}-bit (max_24={max_24}, code={code})"
        );
    }
}

#[test]
fn extracts_lsb_first_slots() {
    // Spec vector: for 24-bit words, slot 4 is the LSB and slot 27 the MSB.
    let mut level = 0u8;
    let mut half = Vec::new();
    let mut bits = [0u8; 28];
    bits[0] = 1; // slot 4 = LSB
    bits[23] = 1; // slot 27 = MSB
    let ones: u32 = bits[..27].iter().map(|bit| u32::from(*bit)).sum();
    bits[27] = (ones % 2) as u8;
    encode_subframe(Preamble::X, &bits, &mut level, &mut half);

    let mut params = params(WordBits::Bits(24));
    params.signed = false;
    let decoded = decode(&bmc_vcd(&half, 2), params);

    assert_eq!(numeric(&decoded.rows[0].items[0].value), (1i64 << 23) | 1);
}

#[test]
fn matches_complementary_preambles() {
    let mut level = 0u8;
    let mut half = Vec::new();
    let a = subframe_bits(42, 24, 0, 0, 0);
    encode_subframe(Preamble::Z, &a, &mut level, &mut half);

    let decoded = decode(&bmc_vcd(&half, 4), params(WordBits::Bits(24)));
    let inverted: Vec<u8> = half.iter().map(|state| 1 - state).collect();
    let decoded_inverted = decode(&bmc_vcd(&inverted, 4), params(WordBits::Bits(24)));

    assert_eq!(decoded, decoded_inverted);
}

#[test]
fn detects_parity_errors() {
    let mut level = 0u8;
    let mut half = Vec::new();
    let mut a = subframe_bits(7, 24, 0, 0, 0);
    a[27] ^= 1; // break even parity
    encode_subframe(Preamble::X, &a, &mut level, &mut half);

    let decoded = decode(&bmc_vcd(&half, 4), params(WordBits::Bits(24)));

    assert_eq!(decoded.rows[3].items.len(), 1);
    assert_eq!(decoded.rows[3].items[0].value, DecodedValue::text("parity"));
}

#[test]
fn decodes_validity_and_user_rows() {
    let mut level = 0u8;
    let mut half = Vec::new();
    let a = subframe_bits(1, 24, 1, 1, 0);
    encode_subframe(Preamble::X, &a, &mut level, &mut half);

    let mut params = params(WordBits::Bits(24));
    params.show_validity = true;
    params.show_user = true;
    let decoded = decode(&bmc_vcd(&half, 4), params);

    assert_eq!(decoded.rows[2].name, "validity");
    assert_eq!(numeric(&decoded.rows[2].items[0].value), 1);
    assert_eq!(decoded.rows[3].name, "user");
    assert_eq!(numeric(&decoded.rows[3].items[0].value), 1);
}

#[test]
fn locks_on_mid_frame_start() {
    let mut level = 0u8;
    let mut half = Vec::new();
    let b = subframe_bits(11, 24, 0, 0, 0);
    let a = subframe_bits(22, 24, 0, 0, 0);
    encode_subframe(Preamble::Y, &b, &mut level, &mut half);
    encode_subframe(Preamble::X, &a, &mut level, &mut half);

    let decoded = decode(&bmc_vcd(&half, 5), params(WordBits::Bits(24)));

    assert_eq!(numeric(&decoded.rows[0].items[0].value), 22);
    assert_eq!(numeric(&decoded.rows[1].items[0].value), 11);
}

#[test]
fn decodes_many_frames() {
    let mut level = 0u8;
    let mut half = Vec::new();
    for frame in 0..8i64 {
        let a = subframe_bits(frame, 24, 0, 0, 0);
        let b = subframe_bits(-frame, 24, 0, 0, 0);
        let preamble = if frame == 0 { Preamble::Z } else { Preamble::X };
        encode_subframe(preamble, &a, &mut level, &mut half);
        encode_subframe(Preamble::Y, &b, &mut level, &mut half);
    }

    let decoded = decode(&bmc_vcd(&half, 7), params(WordBits::Bits(24)));

    assert_eq!(decoded.rows[0].items.len(), 8);
    assert_eq!(decoded.rows[1].items.len(), 8);
    for frame in 0..8usize {
        assert_eq!(numeric(&decoded.rows[0].items[frame].value), frame as i64);
        assert_eq!(
            numeric(&decoded.rows[1].items[frame].value),
            -(frame as i64)
        );
    }
}

#[test]
fn recovers_various_half_periods() {
    for half_period in [2u64, 5, 10, 100] {
        let mut level = 0u8;
        let mut half = Vec::new();
        let a = subframe_bits(0x1234, 24, 0, 0, 0);
        let b = subframe_bits(-7, 24, 0, 0, 0);
        encode_subframe(Preamble::Z, &a, &mut level, &mut half);
        encode_subframe(Preamble::Y, &b, &mut level, &mut half);

        let decoded = decode(&bmc_vcd(&half, half_period), params(WordBits::Bits(24)));

        assert_eq!(
            numeric(&decoded.rows[0].items[0].value),
            0x1234,
            "half period {half_period}"
        );
        assert_eq!(
            numeric(&decoded.rows[1].items[0].value),
            -7,
            "half period {half_period}"
        );
    }
}

#[test]
fn tolerates_transition_jitter() {
    let mut level = 0u8;
    let mut half = Vec::new();
    for frame in 0..16i64 {
        let a = subframe_bits(frame, 24, 0, 0, 0);
        let b = subframe_bits(-frame, 24, 0, 0, 0);
        let preamble = if frame == 0 { Preamble::Z } else { Preamble::X };
        encode_subframe(preamble, &a, &mut level, &mut half);
        encode_subframe(Preamble::Y, &b, &mut level, &mut half);
    }

    let decoded = decode(&jittered_bmc_vcd(&half, 20, 2), params(WordBits::Bits(24)));

    assert_eq!(decoded.rows[0].items.len(), 16);
    assert_eq!(decoded.rows[1].items.len(), 16);
    for frame in 0..16usize {
        assert_eq!(numeric(&decoded.rows[0].items[frame].value), frame as i64);
        assert_eq!(
            numeric(&decoded.rows[1].items[frame].value),
            -(frame as i64)
        );
    }
}

#[test]
fn rejects_stream_without_preambles() {
    // Data bits alone never contain the three-cell run of a preamble, so
    // a biphase-looking signal without framing is rejected rather than
    // decoded as arbitrary samples.
    let mut level = 0u8;
    let mut half = Vec::new();
    append_bits(
        &[1, 0, 1, 0, 1, 1, 0, 0, 1, 0, 1, 1, 0, 1, 0, 0, 1, 1, 0, 1],
        &mut level,
        &mut half,
    );

    let container = load_container(&bmc_vcd(&half, 4));
    let resolved = resolve_inputs(
        &container,
        &vec![DecoderInput {
            role: "data".to_string(),
            variable_ref: VariableRef::from_hierarchy_string("tb.data"),
        }],
    )
    .expect("resolve inputs");
    let settings = DecoderSettings::default();
    let result = BiphaseAudioEngine.decode_params(
        &params(WordBits::Bits(24)),
        &DecoderContext {
            inputs: &resolved,
            settings: &settings,
        },
    );

    assert!(result.is_err());
}

#[test]
fn collapses_simultaneous_transitions() {
    // Exporters can emit a provisional value and the intended value at
    // the same timestamp. With no elapsed time there is no biphase gap;
    // the decoder uses the final line state and otherwise decodes
    // exactly the valid stream.
    let mut level = 0u8;
    let mut half = Vec::new();
    let a = subframe_bits(123, 24, 0, 0, 0);
    let b = subframe_bits(-456, 24, 0, 0, 0);
    encode_subframe(Preamble::Z, &a, &mut level, &mut half);
    encode_subframe(Preamble::Y, &b, &mut level, &mut half);

    let valid = bmc_vcd(&half, 4);
    let duplicate_level = 1 - half[0];
    let malformed = valid.replacen("#0\n", &format!("#0\n{duplicate_level}c\n#0\n"), 1);
    let valid_decoded = decode(&valid, params(WordBits::Bits(24)));

    assert_eq!(
        decode(&malformed, params(WordBits::Bits(24))),
        valid_decoded
    );
}

#[test]
fn recovers_after_long_lead_in() {
    // Captures often idle for a long time before the first frame; the
    // idle gap must not be mistaken for a biphase gap or skew the
    // half-period estimate.
    let mut level = 0u8;
    let mut half = Vec::new();
    for frame in 0..8i64 {
        let a = subframe_bits(frame, 24, 0, 0, 0);
        let b = subframe_bits(-frame, 24, 0, 0, 0);
        let preamble = if frame == 0 { Preamble::Z } else { Preamble::X };
        encode_subframe(preamble, &a, &mut level, &mut half);
        encode_subframe(Preamble::Y, &b, &mut level, &mut half);
    }

    let decoded = decode(
        &bmc_vcd_with_lead_in(&half, 5, 50_000),
        params(WordBits::Bits(24)),
    );

    assert_eq!(decoded.rows[0].items.len(), 8);
    assert_eq!(decoded.rows[1].items.len(), 8);
    for frame in 0..8usize {
        assert_eq!(numeric(&decoded.rows[0].items[frame].value), frame as i64);
        assert_eq!(
            numeric(&decoded.rows[1].items[frame].value),
            -(frame as i64)
        );
    }
}

#[test]
fn tolerates_undefined_lead_in() {
    // Simulators often leave the line undefined before the driver starts;
    // those samples are skipped rather than failing the decode.
    let mut level = 0u8;
    let mut half = Vec::new();
    let a = subframe_bits(123, 24, 0, 0, 0);
    let b = subframe_bits(-456, 24, 0, 0, 0);
    encode_subframe(Preamble::Z, &a, &mut level, &mut half);
    encode_subframe(Preamble::Y, &b, &mut level, &mut half);

    let vcd = bmc_vcd_with_lead_in(&half, 4, 1000).replace("#0\n0c\n", "#0\nxc\n");
    let decoded = decode(&vcd, params(WordBits::Bits(24)));

    assert_eq!(numeric(&decoded.rows[0].items[0].value), 123);
    assert_eq!(numeric(&decoded.rows[1].items[0].value), -456);
}

#[test]
fn tolerates_transmitter_glitches() {
    // A run of edges shifted half a cell early produces 0.5 and 1.5
    // half-period gaps. They are still one and two half cells of data,
    // so the stream must decode unchanged.
    let mut level = 0u8;
    let mut half = Vec::new();
    for frame in 0..16i64 {
        let a = subframe_bits(frame, 24, 0, 0, 0);
        let b = subframe_bits(-frame, 24, 0, 0, 0);
        let preamble = if frame == 0 { Preamble::Z } else { Preamble::X };
        encode_subframe(preamble, &a, &mut level, &mut half);
        encode_subframe(Preamble::Y, &b, &mut level, &mut half);
    }

    let decoded = decode(
        &glitched_bmc_vcd(&half, 20, 30, 4),
        params(WordBits::Bits(24)),
    );

    assert_eq!(decoded.rows[0].items.len(), 16);
    assert_eq!(decoded.rows[1].items.len(), 16);
    for frame in 0..16usize {
        assert_eq!(numeric(&decoded.rows[0].items[frame].value), frame as i64);
        assert_eq!(
            numeric(&decoded.rows[1].items[frame].value),
            -(frame as i64)
        );
    }
}

#[test]
fn decodes_with_explicit_bit_clock() {
    let mut level = 0u8;
    let mut half = Vec::new();
    for frame in 0..8i64 {
        let a = subframe_bits(frame, 24, 0, 0, 0);
        let b = subframe_bits(-frame, 24, 0, 0, 0);
        let preamble = if frame == 0 { Preamble::Z } else { Preamble::X };
        encode_subframe(preamble, &a, &mut level, &mut half);
        encode_subframe(Preamble::Y, &b, &mut level, &mut half);
    }

    let container = load_container_with_signals(
        bmc_bitclk_vcd(&half, 4).into_bytes(),
        &["tb.data", "tb.bitclk"],
    );
    let decoded = decode_with_clock(&container, params(WordBits::Bits(24)));

    assert_eq!(decoded.rows[0].items.len(), 8);
    assert_eq!(decoded.rows[1].items.len(), 8);
    for frame in 0..8usize {
        assert_eq!(numeric(&decoded.rows[0].items[frame].value), frame as i64);
        assert_eq!(
            numeric(&decoded.rows[1].items[frame].value),
            -(frame as i64)
        );
    }
}

#[test]
fn crc_matches_spec_examples() {
    // Tech 3250 Appendix 1, Example 1: byte 0 bits 0, 2, 3, 4, 5; byte 1
    // bit 1; byte 4 bit 1.
    let mut bytes = [0u8; 24];
    bytes[0] = 0b0011_1101;
    bytes[1] = 0b0000_0010;
    bytes[4] = 0b0000_0010;
    assert_eq!(channel_status_crc(&bytes), 0x9B);

    // Example 2: byte 0 bit 0 only.
    let mut bytes = [0u8; 24];
    bytes[0] = 0b0000_0001;
    assert_eq!(channel_status_crc(&bytes), 0x32);
}

#[test]
fn formats_sample_rates() {
    assert_eq!(format_sample_rate(48_000), "48 kHz");
    assert_eq!(format_sample_rate(44_100), "44.1 kHz");
    assert_eq!(format_sample_rate(22_050), "22.05 kHz");
    assert_eq!(format_sample_rate(705_600), "705.6 kHz");
}

#[test]
fn parses_consumer_channel_status() {
    let status = consumer_status(0x02, 5, true); // 48 kHz, 24-bit
    let mut level = 0u8;
    let mut half = Vec::new();
    encode_block(
        &status,
        &status,
        192,
        |frame| (frame as i64, 0),
        24,
        &mut level,
        &mut half,
    );

    let decoded = decode(&bmc_vcd(&half, 4), params(WordBits::Bits(24)));

    assert_eq!(decoded.rows[2].name, "status");
    assert_eq!(decoded.rows[2].items.len(), 1);
    assert_eq!(
        decoded.rows[2].items[0].value,
        DecodedValue::text("consumer 48 kHz 24-bit")
    );
    assert!(decoded.rows[3].items.is_empty());
}

#[test]
fn resolves_word_bits_from_channel_status() {
    // Consumer, 44.1 kHz, 20-bit coding range and 20-bit word length.
    let status = consumer_status(0x00, 5, false);
    let mut level = 0u8;
    let mut half = Vec::new();
    encode_block(
        &status,
        &status,
        192,
        |_| (0xABCDE, 0),
        20,
        &mut level,
        &mut half,
    );

    let decoded = decode(&bmc_vcd(&half, 4), params(WordBits::Auto));

    assert_eq!(
        numeric(&decoded.rows[0].items[0].value),
        0xABCDE - (1 << 20)
    );
    assert_eq!(
        decoded.rows[2].items[0].value,
        DecodedValue::text("consumer 44.1 kHz 20-bit")
    );
}

#[test]
fn parses_professional_channel_status() {
    let mut status = [0u8; 24];
    status[0] = 0x01 | (0b10 << 6); // professional, 48 kHz
    status[2] = 0x2C; // 24-bit range (bit 2), 24-bit word (bits 3 and 5)
    status[23] = channel_status_crc(&status);

    let mut level = 0u8;
    let mut half = Vec::new();
    encode_block(&status, &status, 192, |_| (0, 0), 24, &mut level, &mut half);

    let decoded = decode(&bmc_vcd(&half, 4), params(WordBits::Bits(24)));

    assert_eq!(
        decoded.rows[2].items[0].value,
        DecodedValue::text("AES3 48 kHz 24-bit")
    );
}

#[test]
fn flags_status_crc_errors() {
    let mut status = [0u8; 24];
    status[0] = 0x01 | (0b10 << 6);
    status[2] = 0x2C; // 24-bit range, 24-bit word
    status[23] = channel_status_crc(&status) ^ 0x01;

    let mut level = 0u8;
    let mut half = Vec::new();
    encode_block(&status, &status, 192, |_| (0, 0), 24, &mut level, &mut half);

    let decoded = decode(&bmc_vcd(&half, 4), params(WordBits::Bits(24)));

    assert_eq!(
        decoded.rows[2].items[0].value,
        DecodedValue::text("AES3 48 kHz 24-bit CRC error")
    );
}

#[test]
fn parses_extended_professional_sample_rates() {
    for (code, expected) in [
        (0b0001u8, "AES3 24 kHz 24-bit"),
        (0b0010, "AES3 96 kHz 24-bit"),
        (0b0011, "AES3 192 kHz 24-bit"),
        (0b1001, "AES3 22.05 kHz 24-bit"),
        (0b1010, "AES3 88.2 kHz 24-bit"),
        (0b1011, "AES3 176.4 kHz 24-bit"),
    ] {
        let mut status = [0u8; 24];
        status[0] = 0x01; // professional, rate not indicated in byte 0
        status[2] = 0x2C; // 24-bit range, 24-bit word
        status[4] = code << 3;
        status[23] = channel_status_crc(&status);

        assert_eq!(
            parse_channel_status(&status).summary(),
            expected,
            "extended code {code:04b}"
        );
    }
}

#[test]
fn flags_block_count_errors() {
    let status = consumer_status(0x02, 5, true);
    let mut level = 0u8;
    let mut half = Vec::new();
    encode_block(&status, &status, 192, |_| (0, 0), 24, &mut level, &mut half);
    encode_block(&status, &status, 191, |_| (0, 0), 24, &mut level, &mut half);
    encode_block(&status, &status, 192, |_| (0, 0), 24, &mut level, &mut half);

    let decoded = decode(&bmc_vcd(&half, 4), params(WordBits::Bits(24)));

    assert_eq!(decoded.rows[2].items.len(), 2);
    assert_eq!(decoded.rows[3].items.len(), 1);
    assert_eq!(
        decoded.rows[3].items[0].value,
        DecodedValue::text("block count")
    );
}

#[test]
fn flags_incomplete_final_block() {
    let status = consumer_status(0x02, 5, true);
    let mut level = 0u8;
    let mut half = Vec::new();
    encode_block(&status, &status, 192, |_| (0, 0), 24, &mut level, &mut half);
    encode_block(&status, &status, 50, |_| (0, 0), 24, &mut level, &mut half);

    let decoded = decode(&bmc_vcd(&half, 4), params(WordBits::Bits(24)));

    assert_eq!(decoded.rows[2].items.len(), 1);
    assert_eq!(decoded.rows[3].items.len(), 1);
    assert_eq!(
        decoded.rows[3].items[0].value,
        DecodedValue::text("block count")
    );
}

#[test]
fn keeps_error_row_sorted() {
    let status = consumer_status(0x02, 5, true);
    let mut level = 0u8;
    let mut half = Vec::new();
    encode_block(&status, &status, 192, |_| (0, 0), 24, &mut level, &mut half);
    encode_block(&status, &status, 191, |_| (0, 0), 24, &mut level, &mut half);
    // The following block is complete except for one parity error in
    // frame 10. The 191-frame block's count error is only detected when
    // this block's `Z` arrives, i.e. before the parity error in time.
    for frame in 0..192 {
        let preamble = if frame == 0 { Preamble::Z } else { Preamble::X };
        let mut a = subframe_bits(0, 24, 0, 0, status_bit(&status, frame));
        if frame == 10 {
            a[27] ^= 1;
        }
        encode_subframe(preamble, &a, &mut level, &mut half);
        encode_subframe(
            Preamble::Y,
            &subframe_bits(0, 24, 0, 0, status_bit(&status, frame)),
            &mut level,
            &mut half,
        );
    }

    let decoded = decode(&bmc_vcd(&half, 4), params(WordBits::Bits(24)));

    let errors = &decoded.rows[3].items;
    assert_eq!(errors.len(), 2, "{errors:?}");
    assert_eq!(errors[0].value, DecodedValue::text("block count"));
    assert_eq!(errors[1].value, DecodedValue::text("parity"));
    assert!(errors[0].start < errors[1].start, "{errors:?}");
}

#[test]
fn recovers_half_period_when_sample_misses_short_gaps() {
    // With 1024 gaps the estimator samples every second one, and every
    // sampled gap is a full period. The true half period and its double
    // then tie on the sample; the full gap list must break the tie toward
    // the half period rather than the multiple.
    let gaps: Vec<u64> = (0..1024)
        .map(|index| if index % 2 == 0 { 20 } else { 30 })
        .collect();
    assert_eq!(estimate_half_period(&gaps), Some(10));

    assert_eq!(estimate_half_period(&vec![10, 20, 30, 10, 10]), Some(10));
    assert_eq!(estimate_half_period(&vec![]), None);
}

#[test]
fn survives_deterministic_mutations() {
    // Single-half-cell mutations must produce a clean result (decoded or
    // error), never a panic or hang.
    let status = consumer_status(0x02, 5, true);
    let mut level = 0u8;
    let mut half = Vec::new();
    encode_block(
        &status,
        &status,
        8,
        |frame| (frame as i64, -(frame as i64)),
        24,
        &mut level,
        &mut half,
    );

    for index in (0..half.len()).step_by(7) {
        let mut mutated = half.clone();
        mutated[index] = 1 - mutated[index];
        let _ = try_decode(&bmc_vcd(&mutated, 4), params(WordBits::Bits(24)));
    }
}

#[test]
fn hides_status_row_when_disabled() {
    let mut level = 0u8;
    let mut half = Vec::new();
    let a = subframe_bits(1, 24, 0, 0, 0);
    encode_subframe(Preamble::X, &a, &mut level, &mut half);

    let mut params = params(WordBits::Bits(24));
    params.show_status = false;
    let decoded = decode(&bmc_vcd(&half, 4), params);

    assert_eq!(decoded.rows.len(), 4); // A, B, errors, preamble
    assert_eq!(decoded.rows[2].name, "errors");
    assert_eq!(decoded.rows[3].name, "preamble");
}

// The expected values below are those of EBU Tech 3250 itself, written out
// without the tables of the encoding helpers above.

/// A professional channel-status block with the given bytes set.
fn professional_status(bytes: &[(usize, u8)]) -> [u8; 24] {
    let mut status = [0u8; 24];
    status[0] = 0x01; // professional
    for (index, value) in bytes {
        status[*index] = *value;
    }
    status
}

fn with_crc(mut status: [u8; 24]) -> [u8; 24] {
    status[23] = channel_status_crc(&status);
    status
}

#[test]
fn byte2_word_length_table() {
    // Tech 3250 §4, byte 2, bits 3-5. The table prints bit 3 first
    // (bit 0 of a channel-status byte is the first transmitted and
    // the LSB), so `0b100` here means bit 3 set. `0x04` (byte bit 2)
    // selects the 24-bit coding range.
    // (bit3, bit4, bit5, word length with max 24, with max 20)
    let rows = [
        (0u8, 0u8, 0u8, None, None),
        (0, 0, 1, Some(23u32), Some(19u32)),
        (0, 1, 0, Some(22), Some(18)),
        (0, 1, 1, Some(21), Some(17)),
        (1, 0, 0, Some(20), Some(16)),
        (1, 0, 1, Some(24), Some(20)),
    ];
    for (b3, b4, b5, with_24, with_20) in rows {
        for (range_24, expected) in [(true, with_24), (false, with_20)] {
            let mut status = professional_status(&[(2, b3 << 3 | b4 << 4 | b5 << 5)]);
            if range_24 {
                status[2] |= 0x04;
            }
            // Bits 3-5 = 000 is "not indicated"; the receiver
            // defaults to the maximum of the coding range.
            let expected = expected.unwrap_or(if range_24 { 24 } else { 20 });
            assert_eq!(
                parse_channel_status(&with_crc(status)).word_bits,
                Some(expected),
                "byte 2 bits 3-5 = ({b3},{b4},{b5}), 24-bit range = {range_24}"
            );
        }
    }
}

#[test]
fn byte2_reserved_aux_states_do_not_select_the_24bit_range() {
    // Tech 3250 §4, byte 2, bits 0-2: only `0 0 1` (byte bit 2)
    // selects the 24-bit range. The other states are the 20-bit
    // default or reserved; reserved states fall back to the default.
    for low in [0b001u8, 0b011, 0b101, 0b111] {
        let status = professional_status(&[(2, low | (0b101 << 3))]);
        assert_eq!(
            parse_channel_status(&with_crc(status)).word_bits,
            Some(20),
            "byte 2 bits 0-2 = {low:03b} are reserved"
        );
    }
}

#[test]
fn byte2_reserved_word_length_codes_are_not_decoded() {
    // Tech 3250 §4, byte 2, bits 3-5: `1 1 0` and `1 1 1` are
    // reserved.
    for (b3, b4, b5) in [(1u8, 1u8, 0u8), (1, 1, 1)] {
        let status = professional_status(&[(2, 0x04 | b3 << 3 | b4 << 4 | b5 << 5)]);
        assert_eq!(
            parse_channel_status(&with_crc(status)).word_bits,
            None,
            "byte 2 bits 3-5 = ({b3},{b4},{b5}) are reserved"
        );
    }
}

#[test]
fn byte0_emphasis_table() {
    // Tech 3250 §4, byte 0, bits 2-4. `1 0 0` is "no emphasis" and
    // must be distinguishable from `0 0 0`, "not indicated".
    for (b2, b3, b4, expected) in [
        (0u8, 0u8, 0u8, None),
        (1, 0, 0, Some("no emphasis")),
        (1, 1, 0, Some("50/15")),
        (1, 1, 1, Some("J.17")),
    ] {
        let mut status = professional_status(&[]);
        status[0] |= b2 << 2 | b3 << 3 | b4 << 4;
        let summary = parse_channel_status(&with_crc(status)).summary();
        match expected {
            Some(fragment) => assert!(
                summary.contains(fragment),
                "byte 0 bits 2-4 = ({b2},{b3},{b4}): {summary}"
            ),
            None => assert!(
                !summary.contains("emphasis"),
                "byte 0 bits 2-4 = 000: {summary}"
            ),
        }
    }
}

#[test]
fn byte0_professional_sample_rate_table() {
    // Tech 3250 §4, byte 0, bits 6-7.
    for (b6, b7, expected) in [
        (0u8, 0u8, None),
        (0, 1, Some(48_000u32)),
        (1, 0, Some(44_100)),
        (1, 1, Some(32_000)),
    ] {
        let mut status = professional_status(&[]);
        status[0] |= b6 << 6 | b7 << 7;
        assert_eq!(
            parse_channel_status(&with_crc(status)).sample_rate,
            expected,
            "byte 0 bits 6-7 = ({b6},{b7})"
        );
    }
}

#[test]
fn byte4_professional_sample_rate_table() {
    // Tech 3250 §4, byte 4, bits 3-6, with byte 0 bits 6-7 = 00.
    // (bit3, bit4, bit5, bit6, expected)
    for (b3, b4, b5, b6, expected) in [
        (0u8, 0u8, 0u8, 0u8, None),
        (1, 0, 0, 0, Some(24_000u32)),
        (0, 1, 0, 0, Some(96_000)),
        (1, 1, 0, 0, Some(192_000)),
        (1, 0, 0, 1, Some(22_050)),
        (0, 1, 0, 1, Some(88_200)),
        (1, 1, 0, 1, Some(176_400)),
        (1, 1, 1, 1, None), // user defined
    ] {
        let status =
            professional_status(&[(2, 0x2C), (4, b3 << 3 | b4 << 4 | b5 << 5 | b6 << 6)]);
        assert_eq!(
            parse_channel_status(&with_crc(status)).sample_rate,
            expected,
            "byte 4 bits 3-6 = ({b3},{b4},{b5},{b6})"
        );
    }
}

#[test]
fn byte4_scaling_flag_is_reported() {
    // Tech 3250 §4, byte 4 bit 7: the indicated rate is divided by
    // 1.001.
    let status = professional_status(&[
        (0, 0x01 | (0b10 << 6)), // 48 kHz in byte 0
        (2, 0x2C),
        (4, 0x80),
    ]);
    let summary = parse_channel_status(&with_crc(status)).summary();
    assert!(summary.contains("48 kHz \u{00f7}1.001"), "{summary}");
}

#[test]
fn spec_preamble_patterns() {
    // Tech 3250 §2.4: X = 11100010, Y = 11100100, Z = 11101000,
    // with the complement used when the preceding state is 1. The
    // literal patterns are used here, not the `PREAMBLES` constant.
    for (label, pattern) in [
        ("Preamble M", [1u8, 1, 1, 0, 0, 0, 1, 0]), // X
        ("Preamble W", [1, 1, 1, 0, 0, 1, 0, 0]),   // Y
        ("Preamble B", [1, 1, 1, 0, 1, 0, 0, 0]),   // Z
    ] {
        for inverted in [false, true] {
            let mut half: Vec<u8> = pattern
                .iter()
                .map(|state| if inverted { 1 - state } else { *state })
                .collect();
            let mut level = *half.last().expect("preamble is non-empty");
            append_bits(&[0u8; 28], &mut level, &mut half);

            let decoded = decode(&bmc_vcd(&half, 4), params(WordBits::Bits(24)));
            assert_eq!(
                decoded.rows[4].items[0].value,
                DecodedValue::text(label),
                "{label}, inverted = {inverted}"
            );
        }
    }
}

#[test]
fn spec_subframe_word_placement() {
    // Tech 3250 §2.2.1: MSB in slot 27; LSB in slot 4 (24-bit),
    // slot 8 (20-bit) or slot 12 (16-bit, the unused LSBs zero).
    for (word_bits, lsb_slot, sample) in [
        (24u32, 4usize, 0x123456i64),
        (20, 8, 0xABCDE),
        (16, 12, 0x1234),
    ] {
        let mut bits = [0u8; 28]; // index 0 = slot 4
        for offset in 0..word_bits {
            bits[lsb_slot - 4 + offset as usize] = ((sample >> offset) & 1) as u8;
        }
        let ones: u32 = bits[..27].iter().map(|bit| u32::from(*bit)).sum();
        bits[27] = (ones % 2) as u8;

        let mut level = 0u8;
        let mut half = Vec::new();
        encode_subframe(Preamble::X, &bits, &mut level, &mut half);

        let mut decoder_params = params(WordBits::Bits(word_bits));
        decoder_params.signed = false;
        let decoded = decode(&bmc_vcd(&half, 2), decoder_params);
        assert_eq!(
            numeric(&decoded.rows[0].items[0].value),
            sample,
            "{word_bits}-bit word"
        );
    }
}

#[test]
fn spec_parity_even_over_slots_4_to_31() {
    // Tech 3250 §2.2.1: slots 4-31 carry an even number of ones.
    for ones in [0usize, 1, 2, 13, 27] {
        let mut bits = [0u8; 28];
        for bit in bits.iter_mut().take(27).take(ones) {
            *bit = 1;
        }
        let data_ones: u32 = bits[..27].iter().map(|bit| u32::from(*bit)).sum();
        bits[27] = (data_ones % 2) as u8;

        let mut level = 0u8;
        let mut half = Vec::new();
        encode_subframe(Preamble::X, &bits, &mut level, &mut half);
        let decoded = decode(&bmc_vcd(&half, 2), params(WordBits::Bits(24)));
        assert!(
            decoded.rows[3].items.is_empty(),
            "{ones} data ones should have even parity"
        );

        bits[27] ^= 1;
        let mut level = 0u8;
        let mut half = Vec::new();
        encode_subframe(Preamble::X, &bits, &mut level, &mut half);
        let decoded = decode(&bmc_vcd(&half, 2), params(WordBits::Bits(24)));
        assert_eq!(
            decoded.rows[3].items[0].value,
            DecodedValue::text("parity"),
            "{ones} data ones with the parity bit flipped"
        );
    }
}

#[test]
fn spec_minimum_implementation_reports_crc_error() {
    // Tech 3250 §5.2.1: a minimum implementation sends byte 0 =
    // 0x01 and leaves byte 23 at the default 0. A receiver
    // implementing the CRCC must report that as a CRC error.
    let status = professional_status(&[]);
    let parsed = parse_channel_status(&status);
    assert_eq!(parsed.crc_ok, Some(false));
    assert!(
        parsed.summary().contains("CRC error"),
        "{}",
        parsed.summary()
    );
}

#[test]
fn crc_shows_every_single_wrong_bit() {
    let status = with_crc(professional_status(&[(0, 0b1000_0101), (2, 0b0010_1001)]));
    assert_eq!(parse_channel_status(&status).crc_ok, Some(true));
    for bit in 1..192 {
        let mut wrong = status;
        wrong[bit / 8] ^= 1 << (bit % 8);
        assert_eq!(parse_channel_status(&wrong).crc_ok, Some(false), "bit {bit}");
    }
}

#[test]
fn inverted_streams_decode_alike() {
    let status = consumer_status(2, 5, true);
    let mut level = 0u8;
    let mut half_cells = Vec::new();
    encode_block(
        &status,
        &status,
        192,
        |frame| (frame as i64, -(frame as i64)),
        24,
        &mut level,
        &mut half_cells,
    );
    let inverted: Vec<u8> = half_cells.iter().map(|level| 1 - level).collect();
    let straight = decode(&bmc_vcd(&half_cells, 10), params(WordBits::Auto));
    let turned = decode(&bmc_vcd(&inverted, 10), params(WordBits::Auto));
    assert_eq!(straight, turned);
    assert_eq!(straight.rows[0].items.len(), 192);
    assert!(straight.rows[3].items.is_empty(), "{:?}", straight.rows[3]);
}

#[test]
fn rows_are_as_many_as_announced() {
    let mut level = 0u8;
    let mut half_cells = Vec::new();
    encode_subframe(Preamble::Z, &subframe_bits(5, 24, 0, 0, 0), &mut level, &mut half_cells);
    encode_subframe(Preamble::Y, &subframe_bits(6, 24, 0, 0, 0), &mut level, &mut half_cells);
    let vcd = bmc_vcd(&half_cells, 10);
    for shown in 0..32u32 {
        let mut wanted = params(WordBits::Bits(24));
        wanted.show_validity = shown & 1 != 0;
        wanted.show_user = shown & 2 != 0;
        wanted.show_status = shown & 4 != 0;
        wanted.show_parity_errors = shown & 8 != 0;
        wanted.show_preambles = shown & 16 != 0;
        let data = decode(&vcd, wanted);
        assert_eq!(data.rows.len() as u32, 2 + shown.count_ones());
        assert_eq!(numeric(&data.rows[0].items[0].value), 5);
        assert_eq!(numeric(&data.rows[1].items[0].value), 6);
    }
}

#[test]
fn samples_lists_in_any_order() {
    // The walk goes on from where it is: an earlier clock edge reads the level
    // reached before, and a late transition holds back those behind it.
    let clock = |times: &[u64]| times.iter().map(|time| (*time, false)).collect::<Vec<_>>();
    let data = vec![(5, true), (3, false), (9, true)];
    let levels: Vec<bool> = sample_half_cells(&data, &clock(&[4, 6, 2, 10]))
        .into_iter()
        .map(|(_, level)| level)
        .collect();
    assert_eq!(levels, [true, false, false, true]);
    assert_eq!(
        sample_half_cells(&vec![], &clock(&[1, 2])),
        [(1, false), (2, false)]
    );
    assert!(sample_half_cells(&data, &vec![]).is_empty());
}

#[test]
fn headers_beyond_the_end_are_none() {
    let cells: Vec<(u64, bool)> = [1, 1, 1, 0, 0, 0, 1, 0]
        .iter()
        .enumerate()
        .map(|(time, level)| (time as u64, *level == 1))
        .collect();
    assert_eq!(match_preamble(&cells, 0), Some(Preamble::X));
    assert_eq!(
        classify_header(&cells, 0),
        Some(HeaderKind::Standard(Preamble::X))
    );
    for index in [1, 8, 9, 1000] {
        assert_eq!(match_preamble(&cells, index), None);
        assert_eq!(classify_header(&cells, index), None);
    }
}

#[test]
fn leading_headers_are_taken_backwards() {
    let cells: Vec<(u64, bool)> = (0..192).map(|time| (time, time % 2 == 0)).collect();
    let starts = |candidates: &[usize], anchor: usize, channel: u8| {
        flush_preceding_unknowns(&cells, Some(1), &candidates.to_vec(), anchor, channel)
            .into_iter()
            .map(|subframe| (subframe.start, subframe.channel))
            .collect::<Vec<_>>()
    };
    assert_eq!(
        starts(&[0, 7, 64, 100], 128, 0),
        [(0, Some(0)), (64, Some(1))]
    );
    // Out of order, only what is met on the way back counts.
    assert_eq!(starts(&[64, 0], 128, 1), [(64, Some(0))]);
    // The anchor may be the end of the half-cells, or beyond it where nothing
    // leads up to it.
    assert_eq!(starts(&[128], 192, 1), [(128, Some(0))]);
    assert!(starts(&[128], 500, 1).is_empty());
    assert!(starts(&[0], 32, 1).is_empty());
    assert_eq!(starts(&[0], 64, 4), [(0, Some(5))]);
}

#[test]
fn jitter_behind_an_idle_line_moves_subframes_by_less_than_half_a_half_period() {
    let mut level = 0u8;
    let mut half = Vec::new();
    for frame in 0..4i64 {
        let a = subframe_bits(frame + 1, 24, 0, 0, 0);
        let b = subframe_bits(-frame, 24, 0, 0, 0);
        let preamble = if frame == 0 { Preamble::Z } else { Preamble::X };
        encode_subframe(preamble, &a, &mut level, &mut half);
        encode_subframe(Preamble::Y, &b, &mut level, &mut half);
    }
    let (start, half_period) = (1_000i64, 20i64);
    let mut changes = String::from("#0\n0c\n");
    let mut last = 0u8;
    let mut change_index = 0i64;
    for (index, level) in half.iter().enumerate() {
        if last != *level {
            let offset = if change_index % 6 == 5 { 2 } else { 0 };
            change_index += 1;
            let time = start + index as i64 * half_period + offset;
            changes.push_str(&format!("#{time}\n{level}c\n"));
            last = *level;
        }
    }
    let end = start + half.len() as i64 * half_period;
    changes.push_str(&format!("#{end}\n{}c\n", 1 - last));

    let decoded = decode(&raw_data_vcd(&changes), params(WordBits::Bits(24)));

    for channel in 0..2usize {
        assert_eq!(decoded.rows[channel].items.len(), 4);
        for frame in 0..4usize {
            let item = &decoded.rows[channel].items[frame];
            let sent = if channel == 0 {
                frame as i64 + 1
            } else {
                -(frame as i64)
            };
            assert_eq!(numeric(&item.value), sent);
            let nominal = start + (2 * frame + channel) as i64 * 64 * half_period;
            assert!((item.start as i64 - nominal).abs() <= half_period / 2);
            assert!((item.end as i64 - nominal - 64 * half_period).abs() <= half_period / 2);
        }
    }
}

#[test]
fn streams_behind_an_idle_line_keep_their_times() {
    let mut level = 0u8;
    let mut half = Vec::new();
    encode_subframe(
        Preamble::Z,
        &subframe_bits(5, 24, 0, 0, 0),
        &mut level,
        &mut half,
    );
    encode_subframe(
        Preamble::Y,
        &subframe_bits(-7, 24, 0, 0, 0),
        &mut level,
        &mut half,
    );

    let decoded = decode(
        &bmc_vcd_with_lead_in(&half, 10, 200),
        params(WordBits::Bits(24)),
    );

    let left = &decoded.rows[0].items[0];
    assert_eq!((left.start, left.end, numeric(&left.value)), (200, 840, 5));
    let right = &decoded.rows[1].items[0];
    assert_eq!(
        (right.start, right.end, numeric(&right.value)),
        (840, 1480, -7)
    );
    assert_eq!(decoded.clone(), decoded);
}
