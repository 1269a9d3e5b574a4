//! Tests of the clocked serial engine.
use std::io::Cursor;

use libsurfer::decoders::engines::clocked_serial::state::MAX_FRAME_ERRORS;
use libsurfer::decoders::engines::clocked_serial::{
    ClockedSerialEngine, ClockedSerialParams, FrameSyncMode, Justification,
};
use libsurfer::decoders::input::{
    resolve_inputs, DecoderContext, DecoderInput, LoadedSignal, SignalAccessor, SignalId,
    VariableRef, VariableValue, WaveContainer, WaveVariable,
};
use libsurfer::decoders::settings::DecoderSettings;
use libsurfer::decoders::value::{BitOrder, DecodedData, DecodedValue, Edge};

/// The waveform in VCD bytes, with the changes of the named variables loaded.
fn load_container_with_signals(bytes: Vec<u8>, names: &[&str]) -> WaveContainer {
    let mut waves =
        wellen::simple::read_from_reader(Cursor::new(bytes)).expect("failed to read waveform");
    let vars: Vec<(String, Option<u32>, wellen::SignalRef)> = waves
        .hierarchy()
        .all_vars()
        .map(|var| {
            let var = &waves.hierarchy()[var];
            (
                var.full_name(waves.hierarchy()),
                var.length(waves.hierarchy()),
                var.signal_ref(),
            )
        })
        .collect();
    let refs: Vec<wellen::SignalRef> = vars
        .iter()
        .filter(|(name, _, _)| names.contains(&name.as_str()))
        .map(|(_, _, signal)| *signal)
        .collect();
    waves.load_signals(&refs);

    let signals = refs
        .iter()
        .map(|signal| {
            let changes = waves
                .get_signal(*signal)
                .expect("signal is loaded")
                .iter_changes()
                .map(|(index, value)| {
                    let bits = value.to_bit_string().expect("bit vector");
                    let value = if bits.chars().all(|bit| bit == '0' || bit == '1') {
                        let number = num::BigUint::parse_bytes(bits.as_bytes(), 2)
                            .expect("binary number");
                        VariableValue::BigUint(number.to_bytes_le())
                    } else {
                        VariableValue::String(bits)
                    };
                    (waves.time_table()[index as usize], value)
                })
                .collect();
            LoadedSignal {
                id: SignalId(signal.index()),
                accessor: SignalAccessor::new(changes).expect("changes are in time order"),
            }
        })
        .collect();
    let variables = vars
        .into_iter()
        .map(|(name, num_bits, signal)| WaveVariable {
            variable_ref: VariableRef::from_hierarchy_string(&name),
            num_bits,
            signal: SignalId(signal.index()),
        })
        .collect();
    WaveContainer { variables, signals }
}

fn raw_vcd(changes: &str) -> String {
    format!(
        "$timescale 1ns $end\n\
         $scope module tb $end\n\
         $var wire 1 a bitclk $end\n\
         $var wire 1 b frame_sync $end\n\
         $var wire 1 c data $end\n\
         $upscope $end\n\
         $enddefinitions $end\n\
         {changes}"
    )
}

fn binary_vcd(events: &[(u64, u8, u8, u8)]) -> String {
    let mut changes = String::new();
    for (time, bitclk, frame_sync, data) in events {
        changes.push_str(&format!("#{time}\n{bitclk}a\n{frame_sync}b\n{data}c\n"));
    }
    raw_vcd(&changes)
}

/// A pulse-mode waveform. `bits` are the transmitted sample bits; the
/// generator inserts `offset` padding clock cycles before the first bit.
fn pulse_tdm_vcd(bits: &[u8], offset: u32) -> String {
    pulse_tdm_frames(&[bits], offset)
}

/// A pulse-mode waveform with one frame sync pulse per frame.
fn pulse_tdm_frames(frames: &[&[u8]], offset: u32) -> String {
    let mut events = Vec::new();
    let mut time = 0u64;
    for bits in frames {
        let edges = offset + bits.len() as u32;
        for edge in 0..edges {
            let data = if edge < offset {
                0
            } else {
                bits[(edge - offset) as usize]
            };
            let frame_sync = u8::from(edge == 0);
            events.push((time, 0, frame_sync, data));
            time += 1;
            events.push((time, 1, frame_sync, data));
            time += 1;
        }
    }
    binary_vcd(&events)
}

/// A level-mode (I2S-style) waveform where channel 0 is selected by the low
/// frame sync level and channel 1 by the high level.
fn level_tdm_vcd(channel_bits: [&[u8]; 2], offset: u32) -> String {
    let mut events = Vec::new();
    let mut time = 0u64;
    for (channel, bits) in channel_bits.iter().enumerate() {
        let frame_sync = channel as u8;
        let edges = offset + bits.len() as u32;
        for edge in 0..edges {
            let data = if edge < offset {
                0
            } else {
                bits[(edge - offset) as usize]
            };
            events.push((time, 0, frame_sync, data));
            time += 1;
            events.push((time, 1, frame_sync, data));
            time += 1;
        }
    }
    binary_vcd(&events)
}

fn load_container(vcd: &str) -> WaveContainer {
    load_container_with_signals(
        vcd.as_bytes().to_vec(),
        &["tb.bitclk", "tb.frame_sync", "tb.data"],
    )
}

fn decode_container(container: &WaveContainer, params: ClockedSerialParams) -> DecodedData {
    let inputs = ["bitclk", "frame_sync", "data"]
        .iter()
        .map(|role| DecoderInput {
            role: (*role).to_string(),
            variable_ref: VariableRef::from_hierarchy_string(&format!("tb.{role}")),
        })
        .collect::<Vec<_>>();
    let resolved = resolve_inputs(container, &inputs).expect("resolve inputs");
    ClockedSerialEngine
        .decode_params(
            &params,
            &DecoderContext {
                inputs: &resolved,
                settings: &DecoderSettings::default(),
            },
        )
        .expect("decoding failed")
}

fn decode(vcd: &str, params: ClockedSerialParams) -> DecodedData {
    decode_container(&load_container(vcd), params)
}

fn numeric(value: &DecodedValue) -> i64 {
    match value {
        DecodedValue::Integer { value, .. } => *value,
        other => panic!("expected an integer value, got {other:?}"),
    }
}

#[test]
fn decodes_pulse_mode_msb_first() {
    let bits = [1, 0, 1, 0, 0, 1, 1, 0];
    let params = ClockedSerialParams {
        bits: 4,
        channels: 2,
        signed: false,
        ..Default::default()
    };

    let decoded = decode(&pulse_tdm_vcd(&bits, 0), params);

    assert_eq!(decoded.rows.len(), 3);
    assert_eq!(decoded.rows[0].name, "ch0");
    assert_eq!(decoded.rows[0].items.len(), 1);
    assert_eq!(numeric(&decoded.rows[0].items[0].value), 0b1010);
    assert_eq!(decoded.rows[0].items[0].start, 0);
    assert_eq!(decoded.rows[0].items[0].end, 7);
    assert_eq!(numeric(&decoded.rows[1].items[0].value), 0b0110);
    assert_eq!(decoded.rows[1].items[0].start, 0);
    assert_eq!(decoded.rows[1].items[0].end, 15);
    assert_eq!(decoded.rows[2].name, "errors");
    assert!(decoded.rows[2].items.is_empty());
}

#[test]
fn decodes_falling_frame_sync_edge() {
    let changes = "#0\n0a\n0b\n1c\n#1\n1a\n#2\n0a\n1b\n0c\n#3\n1a\n";
    let params = ClockedSerialParams {
        bits: 2,
        channels: 1,
        frame_edge: Edge::Falling,
        signed: false,
        ..Default::default()
    };

    let decoded = decode(&raw_vcd(changes), params);

    assert_eq!(numeric(&decoded.rows[0].items[0].value), 0b10);
    assert_eq!(decoded.rows[0].items[0].start, 0);
    assert_eq!(decoded.rows[0].items[0].end, 3);
}

#[test]
fn ignores_inactive_frame_sync_edge_timing() {
    let params = ClockedSerialParams {
        bits: 2,
        channels: 1,
        signed: false,
        ..Default::default()
    };

    let early_inactive = raw_vcd("#0\n0a\n1b\n1c\n#1\n1a\n#2\n0a\n0b\n0c\n#3\n1a\n");
    let late_inactive = raw_vcd("#0\n0a\n1b\n1c\n#1\n1a\n#2\n0a\n0c\n#3\n1a\n0b\n");

    let early = decode(&early_inactive, params.clone());
    let late = decode(&late_inactive, params);

    assert_eq!(early, late);
    assert_eq!(numeric(&early.rows[0].items[0].value), 0b10);
}

#[test]
fn decodes_multiple_frames() {
    let frame0 = [1, 0, 1, 0, 0, 1, 1, 0];
    let frame1 = [0, 0, 0, 1, 1, 1, 1, 1];
    let params = ClockedSerialParams {
        bits: 4,
        channels: 2,
        signed: false,
        ..Default::default()
    };

    let decoded = decode(&pulse_tdm_frames(&[&frame0, &frame1], 0), params);

    assert_eq!(decoded.rows[0].items.len(), 2);
    assert_eq!(numeric(&decoded.rows[0].items[0].value), 0b1010);
    assert_eq!(numeric(&decoded.rows[0].items[1].value), 0b0001);
    assert_eq!(numeric(&decoded.rows[1].items[0].value), 0b0110);
    assert_eq!(numeric(&decoded.rows[1].items[1].value), 0b1111);
}

#[test]
fn decodes_signed_sample_with_offset() {
    let bits = [1, 1, 1, 1];
    let params = ClockedSerialParams {
        bits: 4,
        channels: 1,
        offset: 1,
        signed: true,
        ..Default::default()
    };

    let decoded = decode(&pulse_tdm_vcd(&bits, 1), params);

    assert_eq!(decoded.rows[0].items.len(), 1);
    assert_eq!(numeric(&decoded.rows[0].items[0].value), -1);
    assert_eq!(decoded.rows[0].items[0].start, 0);
    assert_eq!(decoded.rows[0].items[0].end, 9);
}

#[test]
fn decodes_lsb_first() {
    let bits = [0, 1, 0, 1];
    let params = ClockedSerialParams {
        bits: 4,
        channels: 1,
        bit_order: BitOrder::LsbFirst,
        signed: false,
        ..Default::default()
    };

    let decoded = decode(&pulse_tdm_vcd(&bits, 0), params);

    assert_eq!(numeric(&decoded.rows[0].items[0].value), 0b1010);
}

#[test]
fn decodes_level_mode_i2s() {
    let params = ClockedSerialParams {
        frame_mode: FrameSyncMode::Level,
        frame_active_high: false,
        bits: 4,
        channels: 2,
        offset: 1,
        signed: false,
        ..Default::default()
    };

    let decoded = decode(&level_tdm_vcd([&[1, 0, 1, 0], &[0, 1, 1, 0]], 1), params);

    assert_eq!(decoded.rows.len(), 3);
    assert_eq!(numeric(&decoded.rows[0].items[0].value), 0b1010);
    assert_eq!(numeric(&decoded.rows[1].items[0].value), 0b0110);
    assert!(decoded.rows[2].items.is_empty());
}

#[test]
fn flags_frames_too_short_for_configured_channels() {
    // The waveform carries four slots per frame; configuring sixteen must
    // not silently drop the rest. Each frame that ends before all
    // channels are read is reported.
    let spec = FormatSpec {
        mode: FrameSyncMode::Pulse,
        justification: Justification::Left,
        clock_edge: Edge::Rising,
        frame_edge: Edge::Rising,
        active_high: true,
        bits: 4,
        channels: 4,
        slot_width: 8,
        offset: 0,
    };
    let samples: Vec<Vec<i64>> = vec![vec![0; 4]; 3];
    let vcd = format_vcd(&spec, &samples);

    let params = ClockedSerialParams {
        bits: 4,
        channels: 16,
        slot_width: Some(8),
        ..Default::default()
    };
    let decoded = decode(&vcd, params);

    assert_eq!(decoded.rows.len(), 17);
    assert_eq!(decoded.rows[16].name, "errors");
    // The final frame has no following sync edge to detect it, so three
    // frames yield two errors.
    assert_eq!(decoded.rows[16].items.len(), 2);
    for item in &decoded.rows[16].items {
        assert_eq!(
            item.value,
            DecodedValue::text("incomplete frame: 4 of 16 channels")
        );
    }
}

#[test]
fn flags_samples_that_do_not_fit_the_frame() {
    // Four clock edges per frame, but eight bits requested per sample.
    let vcd = pulse_tdm_frames(&[&[1, 0, 1, 0], &[1, 0, 1, 0], &[1, 0, 1, 0]], 0);
    let params = ClockedSerialParams {
        bits: 8,
        channels: 1,
        slot_width: Some(8),
        ..Default::default()
    };
    let decoded = decode(&vcd, params);

    assert_eq!(decoded.rows.len(), 2);
    assert_eq!(decoded.rows[1].name, "errors");
    assert_eq!(decoded.rows[1].items.len(), 2);
    assert_eq!(
        decoded.rows[1].items[0].value,
        DecodedValue::text("incomplete frame: 0 of 1 channels")
    );
}

#[test]
fn flags_incomplete_level_mode_slots() {
    // Each word-select slot carries four clock edges, but eight bits are
    // requested.
    let vcd = level_tdm_vcd([&[1, 0, 1, 0], &[0, 1, 1, 0]], 0);
    let params = ClockedSerialParams {
        frame_mode: FrameSyncMode::Level,
        frame_active_high: false,
        bits: 8,
        channels: 2,
        ..Default::default()
    };
    let decoded = decode(&vcd, params);

    assert_eq!(decoded.rows.len(), 3);
    assert_eq!(decoded.rows[2].name, "errors");
    assert_eq!(decoded.rows[2].items.len(), 1);
    assert_eq!(
        decoded.rows[2].items[0].value,
        DecodedValue::text("incomplete sample")
    );
}

#[test]
fn caps_incomplete_frame_errors() {
    // Every frame is too short for the requested sample, so each frame
    // sync produces an error. Only MAX_FRAME_ERRORS are kept, followed by
    // a single truncation marker.
    const FRAME: [u8; 4] = [1, 0, 1, 0];
    let frames: Vec<&[u8]> = (0..150).map(|_| &FRAME[..]).collect();
    let vcd = pulse_tdm_frames(&frames, 0);
    let params = ClockedSerialParams {
        bits: 8,
        channels: 1,
        slot_width: Some(8),
        ..Default::default()
    };
    let decoded = decode(&vcd, params);

    let errors = &decoded.rows[1].items;
    assert_eq!(errors.len(), MAX_FRAME_ERRORS + 1);
    assert_eq!(
        errors[MAX_FRAME_ERRORS].value,
        DecodedValue::text("further frame errors suppressed")
    );
    assert_eq!(
        errors[0].value,
        DecodedValue::text("incomplete frame: 0 of 1 channels")
    );
}

#[test]
fn hides_error_row_when_disabled() {
    let vcd = pulse_tdm_frames(&[&[1, 0, 1, 0], &[1, 0, 1, 0]], 0);
    let params = ClockedSerialParams {
        bits: 8,
        channels: 1,
        slot_width: Some(8),
        show_errors: false,
        ..Default::default()
    };
    let decoded = decode(&vcd, params);

    assert_eq!(decoded.rows.len(), 1);
    assert_eq!(decoded.rows[0].name, "ch0");
}

#[test]
fn marks_undefined_and_high_impedance_samples() {
    let params = ClockedSerialParams {
        bits: 2,
        channels: 1,
        ..Default::default()
    };

    let undefined = raw_vcd("#0\n0a\n1b\n1c\n#1\n1a\n#2\n0a\n0b\nxc\n#3\n1a\n");
    let decoded = decode(&undefined, params.clone());
    assert_eq!(decoded.rows[0].items[0].value, DecodedValue::Undef);

    let high_impedance = raw_vcd("#0\n0a\n1b\n1c\n#1\n1a\n#2\n0a\n0b\nzc\n#3\n1a\n");
    let decoded = decode(&high_impedance, params);
    assert_eq!(decoded.rows[0].items[0].value, DecodedValue::HighImp);
}

#[test]
fn rejects_invalid_settings() {
    let container = load_container(&pulse_tdm_vcd(&[0, 0], 0));
    let inputs = ["bitclk", "frame_sync", "data"]
        .iter()
        .map(|role| DecoderInput {
            role: (*role).to_string(),
            variable_ref: VariableRef::from_hierarchy_string(&format!("tb.{role}")),
        })
        .collect::<Vec<_>>();
    let resolved = resolve_inputs(&container, &inputs).expect("resolve inputs");

    let invalid = [
        // Level frame sync supports exactly two channels.
        ClockedSerialParams {
            frame_mode: FrameSyncMode::Level,
            channels: 4,
            ..Default::default()
        },
        // A user schema must not be able to request an unbounded channel
        // count, which would allocate one row per channel.
        ClockedSerialParams {
            channels: u32::MAX,
            ..Default::default()
        },
    ];

    for params in invalid {
        let result = ClockedSerialEngine.decode_params(
            &params,
            &DecoderContext {
                inputs: &resolved,
                settings: &DecoderSettings::default(),
            },
        );

        assert!(result.is_err(), "{params:?} should be rejected");
    }
}

#[derive(Debug, Clone, Copy)]
struct FormatSpec {
    mode: FrameSyncMode,
    justification: Justification,
    clock_edge: Edge,
    frame_edge: Edge,
    active_high: bool,
    bits: u32,
    channels: u32,
    slot_width: u32,
    offset: u32,
}

fn sample_bit(sample: i64, bits: u32, index: u32) -> u8 {
    let mask = if bits == 64 {
        u64::MAX
    } else {
        (1u64 << bits) - 1
    };
    let raw = (sample as u64) & mask;
    ((raw >> (bits - 1 - index)) & 1) as u8
}

fn sample_value(bits: u32, frame: usize, channel: usize) -> i64 {
    let magnitude = 1i64 << (bits - 1);
    let raw = ((frame * 7 + channel * 13 + 1) as i64 * 104_729) % magnitude;
    if (frame + channel).is_multiple_of(2) {
        raw
    } else {
        -raw
    }
}

fn pulse_edge_bit(spec: &FormatSpec, frame: &[i64], edge_index: u32) -> u8 {
    if edge_index < spec.offset {
        return 0;
    }
    let x = edge_index - spec.offset;
    let slot = x / spec.slot_width;
    let position = x % spec.slot_width;
    if slot >= spec.channels {
        return 0;
    }
    match spec.justification {
        Justification::Left => {
            if position < spec.bits {
                sample_bit(frame[slot as usize], spec.bits, position)
            } else {
                0
            }
        }
        Justification::Right => {
            if position >= spec.slot_width - spec.bits {
                sample_bit(
                    frame[slot as usize],
                    spec.bits,
                    position - (spec.slot_width - spec.bits),
                )
            } else {
                0
            }
        }
    }
}

fn slot_edge_bit(spec: &FormatSpec, sample: i64, edge_index: u32) -> u8 {
    if edge_index < spec.offset {
        return 0;
    }
    let position = edge_index - spec.offset;
    match spec.justification {
        Justification::Left => {
            if position < spec.bits {
                sample_bit(sample, spec.bits, position)
            } else {
                0
            }
        }
        Justification::Right => {
            if position >= spec.slot_width - spec.bits {
                sample_bit(sample, spec.bits, position - (spec.slot_width - spec.bits))
            } else {
                0
            }
        }
    }
}

fn format_vcd(spec: &FormatSpec, samples: &[Vec<i64>]) -> String {
    let mut events: Vec<(u64, u8, u8, u8)> = Vec::new();
    let start_parity = match spec.clock_edge {
        Edge::Rising => 0,
        Edge::Falling => 1,
    };
    let fs_active = u8::from(spec.frame_edge == Edge::Rising);

    match spec.mode {
        FrameSyncMode::Pulse => {
            let frame_width = spec.offset + spec.channels * spec.slot_width;
            let frame_duration = 2 * u64::from(frame_width) + 2;
            for (frame_index, frame) in samples.iter().enumerate() {
                let frame_start = start_parity + frame_index as u64 * frame_duration;
                let mut data = 0u8;
                for offset in 0..frame_duration {
                    let time = frame_start + offset;
                    let clk = (time % 2) as u8;
                    let fs = if offset < 2 { fs_active } else { 1 - fs_active };
                    if offset % 2 == 1 {
                        let edge_index = (offset - 1) / 2;
                        if edge_index < u64::from(frame_width) {
                            data = pulse_edge_bit(spec, frame, edge_index as u32);
                        }
                    }
                    events.push((time, clk, fs, data));
                }
            }
        }
        FrameSyncMode::Level => {
            // The offset shifts the slot window, so a right-justified
            // sample extends past the nominal slot width.
            let slot_edges = match spec.justification {
                Justification::Left => spec.slot_width,
                Justification::Right => spec.offset + spec.slot_width,
            };
            let slot_duration = 2 * u64::from(slot_edges) + 2;
            let frame_duration = u64::from(spec.channels) * slot_duration;
            for (frame_index, frame) in samples.iter().enumerate() {
                let frame_start = start_parity + frame_index as u64 * frame_duration;
                for channel in 0..spec.channels {
                    let slot_start = frame_start + u64::from(channel) * slot_duration;
                    let fs = if (channel == 0) == spec.active_high {
                        1
                    } else {
                        0
                    };
                    let mut data = 0u8;
                    for offset in 0..slot_duration {
                        let time = slot_start + offset;
                        let clk = (time % 2) as u8;
                        if offset % 2 == 1 {
                            let edge_index = (offset - 1) / 2;
                            if edge_index < u64::from(slot_edges) {
                                data = slot_edge_bit(
                                    spec,
                                    frame[channel as usize],
                                    edge_index as u32,
                                );
                            }
                        }
                        events.push((time, clk, fs, data));
                    }
                }
            }
        }
    }

    binary_vcd(&events)
}

fn check_format(spec: FormatSpec) {
    let frame_count = 3usize;
    let samples: Vec<Vec<i64>> = (0..frame_count)
        .map(|frame| {
            (0..spec.channels)
                .map(|channel| sample_value(spec.bits, frame, channel as usize))
                .collect()
        })
        .collect();

    let params = ClockedSerialParams {
        clock_edge: spec.clock_edge,
        frame_mode: spec.mode,
        frame_edge: spec.frame_edge,
        frame_active_high: spec.active_high,
        bits: spec.bits,
        channels: spec.channels,
        bit_order: BitOrder::MsbFirst,
        justification: spec.justification,
        offset: spec.offset,
        signed: true,
        slot_width: Some(spec.slot_width),
        ..Default::default()
    };

    let decoded = decode(&format_vcd(&spec, &samples), params);

    assert_eq!(decoded.rows.len(), spec.channels as usize + 1);
    assert!(
        decoded.rows[spec.channels as usize].items.is_empty(),
        "unexpected frame errors for {spec:?}"
    );
    for (channel, row) in decoded.rows.iter().take(spec.channels as usize).enumerate() {
        assert_eq!(
            row.items.len(),
            frame_count,
            "wrong sample count for {spec:?}"
        );
        for (frame, item) in row.items.iter().enumerate() {
            assert_eq!(
                numeric(&item.value),
                samples[frame][channel],
                "wrong value for {spec:?} frame {frame} channel {channel}"
            );
        }
    }
}

#[test]
fn decodes_tdm_format_matrix() {
    for &bits in &[16u32, 20, 24, 32] {
        for &channels in &[2u32, 4, 8, 16] {
            for &justification in &[Justification::Left, Justification::Right] {
                for &slot_width in &[bits, 32] {
                    for &offset in &[0u32, 1] {
                        for &clock_edge in &[Edge::Rising, Edge::Falling] {
                            for &frame_edge in &[Edge::Rising, Edge::Falling] {
                                check_format(FormatSpec {
                                    mode: FrameSyncMode::Pulse,
                                    justification,
                                    clock_edge,
                                    frame_edge,
                                    active_high: true,
                                    bits,
                                    channels,
                                    slot_width,
                                    offset,
                                });
                            }
                        }
                    }
                }
            }
        }
    }
}

#[test]
fn decodes_i2s_format_matrix() {
    for &bits in &[16u32, 20, 24, 32] {
        for &justification in &[Justification::Left, Justification::Right] {
            for &offset in &[0u32, 1] {
                for &clock_edge in &[Edge::Rising, Edge::Falling] {
                    for &active_high in &[false, true] {
                        let slot_width = if bits == 32 { 64 } else { 32 };
                        check_format(FormatSpec {
                            mode: FrameSyncMode::Level,
                            justification,
                            clock_edge,
                            frame_edge: Edge::Rising,
                            active_high,
                            bits,
                            channels: 2,
                            slot_width,
                            offset,
                        });
                    }
                }
            }
        }
    }
}

#[test]
fn captures_are_read_frame_by_frame() {
    let params = ClockedSerialParams {
        bits: 2,
        channels: 2,
        signed: false,
        ..Default::default()
    };
    // A clock cycle before the first frame, one between the frames, a data line
    // that only changes where it has to, and the end of the frame sync anywhere.
    let capture = raw_vcd(
        "#0\n0a\n0b\n1c\n#1\n1a\n\
         #2\n0a\n1b\n#3\n1a\n#4\n0a\n0b\n#5\n1a\n#6\n0a\n0c\n#7\n1a\n#8\n0a\n#9\n1a\n\
         #10\n0a\n#11\n1a\n\
         #12\n0a\n1b\n1c\n#13\n1a\n#14\n0a\n0c\n#15\n1a\n#16\n0a\n1c\n#17\n1a\n0b\n#18\n0a\n#19\n1a\n",
    );

    let decoded = decode(&capture, params);

    let read: Vec<Vec<(u64, u64, i64)>> = decoded
        .rows
        .iter()
        .map(|row| {
            row.items
                .iter()
                .map(|item| (item.start, item.end, numeric(&item.value)))
                .collect()
        })
        .collect();
    assert_eq!(
        read,
        [
            vec![(2, 5, 0b11), (12, 15, 0b10)],
            vec![(2, 9, 0b00), (12, 19, 0b11)],
            vec![],
        ]
    );
}

#[test]
fn captures_are_read_slot_by_slot() {
    let params = ClockedSerialParams {
        frame_mode: FrameSyncMode::Level,
        frame_active_high: false,
        bits: 2,
        channels: 2,
        signed: false,
        ..Default::default()
    };
    let capture = raw_vcd(
        "#0\n0a\n0b\n1c\n#1\n1a\n#2\n0a\n#3\n1a\n#4\n0a\n#5\n1a\n\
         #6\n0a\n1b\n0c\n#7\n1a\n#8\n0a\n1c\n#9\n1a\n\
         #10\n0a\n0b\n#11\n1a\n#12\n0a\n0c\n#13\n1a\n",
    );

    let decoded = decode(&capture, params);

    let values: Vec<Vec<i64>> = decoded
        .rows
        .iter()
        .map(|row| row.items.iter().map(|item| numeric(&item.value)).collect())
        .collect();
    assert_eq!(values, [vec![0b11, 0b10], vec![0b01], vec![]]);
}
