//! Tests of decoding without a window.
use std::sync::Arc;

use libsurfer::decoders::cache::DecoderCacheEntry;
use libsurfer::decoders::error::DecoderError;
use libsurfer::decoders::input::{
    DecoderInput, LoadedSignal, SignalAccessor, SignalId, VariableRef, VariableValue,
    WaveContainer, WaveVariable,
};
use libsurfer::decoders::settings::DecoderSettings;
use libsurfer::decoders::value::{DecodedData, DecodedRow, ValueFormat};
use libsurfer::displayed::{DisplayedDecoder, DisplayedItem, DisplayedItemRef};
use libsurfer::headless::{
    check_start, collect_outputs, decide, decoder_cache_keys, decoder_caches_ready,
    pending_decoders, HeadlessError, LoadedWaves, Observation, Phase, Verdict,
};

fn decoder(name: &str, signal: &str, cache: Option<DecoderCacheEntry>) -> DisplayedItem {
    DisplayedItem::Decoder(DisplayedDecoder {
        decoder: "spdif".to_string(),
        inputs: vec![DecoderInput {
            role: "data".to_string(),
            variable_ref: VariableRef::from_hierarchy_string(signal),
        }],
        settings: DecoderSettings::default(),
        display_name: name.to_string(),
        show_samples: true,
        value_format: ValueFormat::Hexadecimal,
        analog: None,
        cache,
    })
}

fn building() -> DecoderCacheEntry {
    DecoderCacheEntry::new((vec![], DecoderSettings::default()), 1)
}

fn built() -> DecoderCacheEntry {
    let mut entry = building();
    entry.set(Ok(Arc::new(DecodedData {
        rows: vec![DecodedRow {
            name: "A".to_string(),
            numeric_range: None,
            items: vec![],
        }],
    })));
    entry
}

fn failed(reason: &str) -> DecoderCacheEntry {
    let mut entry = building();
    entry.set(Err(reason.to_string()));
    entry
}

fn container() -> WaveContainer {
    WaveContainer {
        variables: vec![
            WaveVariable {
                variable_ref: VariableRef::from_hierarchy_string("tb.data"),
                num_bits: Some(1),
                signal: SignalId(9),
            },
            WaveVariable {
                variable_ref: VariableRef::from_hierarchy_string("tb.idle"),
                num_bits: Some(1),
                signal: SignalId(10),
            },
        ],
        signals: vec![LoadedSignal {
            id: SignalId(9),
            accessor: SignalAccessor::new(vec![(0, VariableValue::BigUint(vec![]))])
                .expect("in time order"),
        }],
    }
}

fn waves(items: Vec<DisplayedItem>) -> LoadedWaves {
    LoadedWaves {
        container: Some(container()),
        displayed_items: items
            .into_iter()
            .enumerate()
            .map(|(i, item)| (DisplayedItemRef(i), item))
            .collect(),
    }
}

fn seen(loaded: bool, commands_done: bool, loading: bool, late: bool) -> Observation {
    Observation {
        loaded,
        commands_done,
        loading,
        late,
    }
}

#[test]
fn reports_missing_waveform_file() {
    let error = check_start(Some("/definitely/not/a/waveform.vcd"), false, true)
        .expect_err("missing file should be rejected")
        .message();
    assert!(error.contains("does not exist"), "{error}");
    assert_eq!(
        error,
        "waveform file does not exist: /definitely/not/a/waveform.vcd"
    );
}

#[test]
fn rejects_unrepresentable_timeout() {
    let error = check_start(Some("spdif_2ch_24bit.vcd"), true, false)
        .expect_err("oversized timeout should be rejected")
        .message();
    assert!(error.contains("timeout"), "{error}");
    assert!(check_start(None, false, false).is_err());
    assert!(check_start(Some("spdif_2ch_24bit.vcd"), true, true).is_ok());
    assert!(check_start(None, false, true).is_ok());
}

#[test]
fn decoders_are_asked_once() {
    assert!(Phase::Loading.requests_caches(seen(true, true, false, false)));
    assert!(!Phase::Loading.requests_caches(seen(false, true, true, false)));
    assert!(!Phase::Loading.requests_caches(seen(true, false, false, false)));
    assert!(!Phase::Decoding.requests_caches(seen(true, true, false, false)));

    let mut phase = Phase::Loading;
    let mut requested = Vec::new();
    for (loaded, commands_done) in [
        (false, false),
        (true, false),
        (true, true),
        (true, true),
        (false, true),
        (true, true),
    ] {
        let round = seen(loaded, commands_done, !loaded, false);
        requested.push(phase.requests_caches(round));
        phase = phase.next(round);
    }
    assert_eq!(requested, [false, false, true, false, false, false]);
    assert_eq!(phase, Phase::Decoding);
    assert_eq!(Phase::Loading.next(seen(true, false, false, true)), Phase::Loading);
}

#[test]
fn a_round_ends_in_a_verdict() {
    let ready = waves(vec![decoder("one", "tb.data", Some(built())), DisplayedItem::Other]);
    let pending = waves(vec![
        decoder("one", "tb.data", Some(building())),
        decoder("two", "tb.data", Some(built())),
        decoder("three", "tb.data", None),
    ]);

    // Finished decoders count even when the time is over.
    assert!(matches!(
        decide(Phase::Decoding, seen(true, true, false, true), Some(&ready)),
        Verdict::Finished
    ));
    assert!(matches!(
        decide(Phase::Loading, seen(true, true, false, false), Some(&ready)),
        Verdict::Wait
    ));
    assert!(matches!(
        decide(Phase::Decoding, seen(true, true, false, false), Some(&pending)),
        Verdict::Wait
    ));
    let late = |phase: Phase, loading: bool| match decide(
        phase,
        seen(false, false, loading, true),
        Some(&pending),
    ) {
        Verdict::Failed(error) => error.message(),
        other => panic!("expected a timeout, got {other:?}"),
    };
    assert_eq!(
        late(Phase::Decoding, false),
        "timed out waiting for decoders: one, three"
    );
    assert_eq!(
        late(Phase::Loading, true),
        "timed out loading the waveform; the load may have failed (see the log)"
    );
    assert_eq!(
        late(Phase::Loading, false),
        "timed out loading waveform and applying commands"
    );
}

#[test]
fn ready_decoders_are_not_pending() {
    let ready = waves(vec![
        decoder("one", "tb.data", Some(built())),
        decoder("two", "tb.data", Some(failed("no"))),
    ]);
    assert!(decoder_caches_ready(Some(&ready)));
    assert!(pending_decoders(Some(&ready)).is_empty());
    let pending = waves(vec![
        decoder("one", "tb.data", Some(built())),
        decoder("two", "tb.data", None),
    ]);
    assert!(!decoder_caches_ready(Some(&pending)));
    assert_eq!(pending_decoders(Some(&pending)), ["two"]);
    assert!(decoder_caches_ready(None));
    assert!(pending_decoders(None).is_empty());
}

#[test]
fn cache_keys_are_made_for_every_decoder() {
    let loaded = waves(vec![
        DisplayedItem::Other,
        decoder("one", "tb.data", None),
        decoder("two", "tb.data", None),
    ]);
    let keys = decoder_cache_keys(Some(&loaded)).expect("both are known");
    assert_eq!(keys.len(), 2);
    assert_eq!(keys[0].0, DisplayedItemRef(1));
    assert_eq!(keys[1].0, DisplayedItemRef(2));
    assert_eq!(keys[0].1 .0, [SignalId(9)]);
    assert!(decoder_cache_keys(None).expect("nothing to do").is_empty());

    let error = decoder_cache_keys(Some(&waves(vec![DisplayedItem::Other])))
        .expect_err("no decoders")
        .message();
    assert_eq!(
        error,
        "no decoder items were added; pass e.g. -C 'decoder_add spdif <signal>'"
    );
    let error = decoder_cache_keys(Some(&waves(vec![decoder("one", "tb.none", None)])))
        .expect_err("unknown signal");
    assert!(matches!(&error, HeadlessError::Unresolved { name, .. } if name == "one"));
    assert!(
        error.message().starts_with("cannot resolve inputs of 'one': "),
        "{}",
        error.message()
    );
    assert!(decoder_cache_keys(Some(&waves(vec![decoder("one", "tb.idle", None)]))).is_err());

    let mut foreign = waves(vec![decoder("one", "tb.data", None)]);
    foreign.container = None;
    let error = decoder_cache_keys(Some(&foreign)).expect_err("no waveform");
    assert_eq!(
        error.message(),
        "decoders require a waveform source that supports them"
    );
    let error = HeadlessError::NoKey {
        reason: DecoderError::UnassignedInput {
            role: "data".to_string(),
        },
    };
    assert_eq!(error.message(), "No signal assigned to decoder input 'data'");
}

#[test]
fn outputs_are_collected() {
    let loaded = waves(vec![
        decoder("one", "tb.data", Some(built())),
        DisplayedItem::Other,
        decoder("two", "tb.data", Some(built())),
    ]);
    let outputs = collect_outputs(&loaded).expect("both are built");
    assert_eq!(outputs.len(), 2);
    assert_eq!(outputs[0].decoder, "spdif");
    assert_eq!(outputs[0].display_name, "one");
    assert_eq!(outputs[1].display_name, "two");
    assert_eq!(outputs[1].data.rows[0].name, "A");
    assert_eq!(outputs[1].value_format, ValueFormat::Hexadecimal);

    let fault = |second: Option<DecoderCacheEntry>| {
        collect_outputs(&waves(vec![
            decoder("one", "tb.data", Some(built())),
            decoder("two", "tb.data", second),
            decoder("three", "tb.data", None),
        ]))
        .expect_err("the second one gave nothing")
        .message()
    };
    assert_eq!(fault(None), "no cache was built for decoder 'two'");
    assert_eq!(fault(Some(building())), "decoder 'two' is still building");
    assert_eq!(
        fault(Some(failed("no bit clock"))),
        "decoder 'two' failed: no bit clock"
    );
}
