//! Running decoders on a waveform without opening a window.
//!
//! The application loads the waveform, applies the commands and builds the
//! decoders' caches; what it does when, and what comes of it, is decided here.
use std::sync::Arc;
use vstd::prelude::*;
use crate::decoders::cache;
use crate::decoders::cache::DecoderCacheKey;
use crate::decoders::error;
use crate::decoders::error::{DecoderError, ErrorView};
use crate::decoders::input;
use crate::decoders::input::{InputView, SignalId, WaveContainer};
use crate::decoders::settings::SettingView;
use crate::decoders::value::{DecodedData, RowView, ValueFormat};
use crate::displayed::{DisplayedDecoder, DisplayedItem, DisplayedItemRef};
use crate::text;

verus! {

/// The decoded output of one decoder item.
#[derive(Debug)]
pub struct DecodedDecoder {
    pub decoder: String,
    pub display_name: String,
    pub data: Arc<DecodedData>,
    pub value_format: ValueFormat,
}

/// A [`DecodedDecoder`] with its texts as sequences of characters.
#[verifier::ext_equal]
pub struct OutputView {
    pub decoder: Seq<char>,
    pub display_name: Seq<char>,
    pub rows: Seq<RowView>,
    pub value_format: ValueFormat,
}

impl View for DecodedDecoder {
    type V = OutputView;

    open spec fn view(&self) -> OutputView {
        OutputView {
            decoder: self.decoder@,
            display_name: self.display_name@,
            rows: self.data@,
            value_format: self.value_format,
        }
    }
}

impl Clone for DecodedDecoder {
    fn clone(&self) -> (copy: Self)
        ensures
            copy@ == self@,
    {
        DecodedDecoder {
            decoder: self.decoder.clone(),
            display_name: self.display_name.clone(),
            data: self.data.clone(),
            value_format: self.value_format,
        }
    }
}

/// The views of a list of outputs.
pub open spec fn output_views(outputs: Seq<DecodedDecoder>) -> Seq<OutputView> {
    Seq::new(outputs.len(), |i: int| outputs[i]@)
}

/// Why a waveform could not be decoded.
#[allow(inconsistent_fields)]
#[derive(Debug)]
pub enum HeadlessError {
    /// There is no such waveform file.
    MissingFile { path: String },
    /// The time limit does not fit in the clock.
    TimeoutTooLarge,
    /// The waveform cannot be read by decoders.
    NoWaveform,
    /// The inputs of a decoder cannot be resolved.
    Unresolved { name: String, reason: DecoderError },
    /// A signal of a decoder is not known.
    NoKey { reason: DecoderError },
    /// The commands added no decoder.
    NoDecoders,
    /// The decoders did not finish in time.
    DecodersTimedOut { pending: Vec<String> },
    /// The waveform was still being loaded when the time was over.
    LoadTimedOut,
    /// The commands were still being applied when the time was over.
    CommandsTimedOut,
    /// A decoder was not asked to decode.
    NoCache { name: String },
    /// A decoder failed.
    Failed { name: String, reason: String },
    /// A decoder has not finished.
    StillBuilding { name: String },
}

/// A [`HeadlessError`] with its texts as sequences of characters.
#[allow(inconsistent_fields)]
#[verifier::ext_equal]
pub enum HeadlessErrorView {
    MissingFile { path: Seq<char> },
    TimeoutTooLarge,
    NoWaveform,
    Unresolved { name: Seq<char>, reason: ErrorView },
    NoKey { reason: ErrorView },
    NoDecoders,
    DecodersTimedOut { pending: Seq<Seq<char>> },
    LoadTimedOut,
    CommandsTimedOut,
    NoCache { name: Seq<char> },
    Failed { name: Seq<char>, reason: Seq<char> },
    StillBuilding { name: Seq<char> },
}

impl View for HeadlessError {
    type V = HeadlessErrorView;

    open spec fn view(&self) -> HeadlessErrorView {
        match *self {
            HeadlessError::MissingFile { path } => HeadlessErrorView::MissingFile { path: path@ },
            HeadlessError::TimeoutTooLarge => HeadlessErrorView::TimeoutTooLarge,
            HeadlessError::NoWaveform => HeadlessErrorView::NoWaveform,
            HeadlessError::Unresolved { name, reason } => HeadlessErrorView::Unresolved {
                name: name@,
                reason: reason@,
            },
            HeadlessError::NoKey { reason } => HeadlessErrorView::NoKey { reason: reason@ },
            HeadlessError::NoDecoders => HeadlessErrorView::NoDecoders,
            HeadlessError::DecodersTimedOut { pending } => HeadlessErrorView::DecodersTimedOut {
                pending: text::texts(pending@),
            },
            HeadlessError::LoadTimedOut => HeadlessErrorView::LoadTimedOut,
            HeadlessError::CommandsTimedOut => HeadlessErrorView::CommandsTimedOut,
            HeadlessError::NoCache { name } => HeadlessErrorView::NoCache { name: name@ },
            HeadlessError::Failed { name, reason } => HeadlessErrorView::Failed {
                name: name@,
                reason: reason@,
            },
            HeadlessError::StillBuilding { name } => HeadlessErrorView::StillBuilding {
                name: name@,
            },
        }
    }
}

/// An error in words.
pub open spec fn headless_message(error: HeadlessErrorView) -> Seq<char> {
    match error {
        HeadlessErrorView::MissingFile { path } => "waveform file does not exist: "@ + path,
        HeadlessErrorView::TimeoutTooLarge => "timeout is too large"@,
        HeadlessErrorView::NoWaveform => "decoders require a waveform source that supports them"@,
        HeadlessErrorView::Unresolved { name, reason } => "cannot resolve inputs of '"@ + name
            + "': "@ + error::error_message(reason),
        HeadlessErrorView::NoKey { reason } => error::error_message(reason),
        HeadlessErrorView::NoDecoders => {
            "no decoder items were added; pass e.g. -C 'decoder_add spdif <signal>'"@
        },
        HeadlessErrorView::DecodersTimedOut { pending } => "timed out waiting for decoders: "@
            + text::joined(pending, ", "@),
        HeadlessErrorView::LoadTimedOut => {
            "timed out loading the waveform; the load may have failed (see the log)"@
        },
        HeadlessErrorView::CommandsTimedOut => {
            "timed out loading waveform and applying commands"@
        },
        HeadlessErrorView::NoCache { name } => "no cache was built for decoder '"@ + name + "'"@,
        HeadlessErrorView::Failed { name, reason } => "decoder '"@ + name + "' failed: "@ + reason,
        HeadlessErrorView::StillBuilding { name } => "decoder '"@ + name + "' is still building"@,
    }
}

impl HeadlessError {
    /// This error in words.
    pub fn message(&self) -> (words: String)
        ensures
            words@ == headless_message(self@),
    {
        match self {
            HeadlessError::MissingFile { path } => {
                let mut words = "waveform file does not exist: ".to_owned();
                words.append(path.as_str());
                words
            },
            HeadlessError::TimeoutTooLarge => "timeout is too large".to_owned(),
            HeadlessError::NoWaveform => {
                "decoders require a waveform source that supports them".to_owned()
            },
            HeadlessError::Unresolved { name, reason } => {
                let mut words = "cannot resolve inputs of '".to_owned();
                words.append(name.as_str());
                words.append("': ");
                words.append(reason.message().as_str());
                words
            },
            HeadlessError::NoKey { reason } => reason.message(),
            HeadlessError::NoDecoders => {
                "no decoder items were added; pass e.g. -C 'decoder_add spdif <signal>'".to_owned()
            },
            HeadlessError::DecodersTimedOut { pending } => {
                let mut words = "timed out waiting for decoders: ".to_owned();
                words.append(text::join_text(pending, ", ").as_str());
                words
            },
            HeadlessError::LoadTimedOut => {
                "timed out loading the waveform; the load may have failed (see the log)".to_owned()
            },
            HeadlessError::CommandsTimedOut => {
                "timed out loading waveform and applying commands".to_owned()
            },
            HeadlessError::NoCache { name } => {
                let mut words = "no cache was built for decoder '".to_owned();
                words.append(name.as_str());
                words.append("'");
                words
            },
            HeadlessError::Failed { name, reason } => {
                let mut words = "decoder '".to_owned();
                words.append(name.as_str());
                words.append("' failed: ");
                words.append(reason.as_str());
                words
            },
            HeadlessError::StillBuilding { name } => {
                let mut words = "decoder '".to_owned();
                words.append(name.as_str());
                words.append("' is still building");
                words
            },
        }
    }
}

/// A waveform that has been loaded, and the items displayed with it.
pub struct LoadedWaves {
    /// The waveform, if decoders can read it.
    pub container: Option<WaveContainer>,
    pub displayed_items: Vec<(DisplayedItemRef, DisplayedItem)>,
}

/// Check, before anything is loaded, that the waveform file exists and that the
/// deadline fits in the clock. `path` is the file, if the waveform is one.
pub fn check_start(path: Option<&str>, exists: bool, deadline_fits: bool) -> (result: Result<
    (),
    HeadlessError,
>)
    ensures
        match result {
            Ok(()) => (path is None || exists) && deadline_fits,
            Err(error) => if path is Some && !exists {
                error@ == (HeadlessErrorView::MissingFile { path: path.unwrap()@ })
            } else {
                !deadline_fits && error@ == HeadlessErrorView::TimeoutTooLarge
            },
        },
{
    if let Some(path) = path {
        if !exists {
            return Err(HeadlessError::MissingFile { path: path.to_owned() });
        }
    }
    if !deadline_fits {
        return Err(HeadlessError::TimeoutTooLarge);
    }
    Ok(())
}

/// How far decoding has come.
#[derive(Debug, Clone, Copy, PartialEq, Eq, Structural)]
pub enum Phase {
    /// The waveform is being loaded and the commands are being applied.
    Loading,
    /// The decoders have been asked to decode.
    Decoding,
}

/// What the application sees in one round of its loop.
#[derive(Debug, Clone, Copy, PartialEq, Eq, Structural)]
pub struct Observation {
    /// Whether the waveform has been loaded.
    pub loaded: bool,
    /// Whether all commands have been applied.
    pub commands_done: bool,
    /// Whether the waveform is still being loaded.
    pub loading: bool,
    /// Whether the time is over.
    pub late: bool,
}

/// Whether the decoders are to be asked to decode in a round: the waveform is
/// there, the commands have been applied, and they have not been asked before.
pub open spec fn requests(phase: Phase, seen: Observation) -> bool {
    phase == Phase::Loading && seen.loaded && seen.commands_done
}

/// The phase that a round leads to.
pub open spec fn next_phase(phase: Phase, seen: Observation) -> Phase {
    if requests(phase, seen) {
        Phase::Decoding
    } else {
        phase
    }
}

impl Phase {
    /// Whether the decoders are now to be asked to decode: once, when the
    /// waveform is there and the commands have been applied.
    pub fn requests_caches(self, seen: Observation) -> (request: bool)
        ensures
            request == requests(self, seen),
    {
        match self {
            Phase::Loading => seen.loaded && seen.commands_done,
            Phase::Decoding => false,
        }
    }

    /// The phase that a round leads to: from when on the decoders have been
    /// asked, they are waited for.
    pub fn next(self, seen: Observation) -> (next: Phase)
        ensures
            next == next_phase(self, seen),
    {
        if self.requests_caches(seen) {
            Phase::Decoding
        } else {
            self
        }
    }
}

/// The phase before round `n`, by what was seen in the rounds before it.
pub open spec fn phase_before(rounds: Seq<Observation>, n: nat) -> Phase
    decreases n,
{
    if n == 0 {
        Phase::Loading
    } else {
        next_phase(phase_before(rounds, (n - 1) as nat), rounds[n - 1])
    }
}

proof fn decoding_lasts(rounds: Seq<Observation>, m: nat, n: nat)
    requires
        m <= n,
        phase_before(rounds, m) == Phase::Decoding,
    ensures
        phase_before(rounds, n) == Phase::Decoding,
    decreases n,
{
    if m < n {
        decoding_lasts(rounds, m, (n - 1) as nat);
    }
}

/// The decoders are asked to decode at most once.
pub proof fn caches_are_requested_once(rounds: Seq<Observation>, m: nat, n: nat)
    requires
        m < n < rounds.len(),
        requests(phase_before(rounds, m), rounds[m as int]),
    ensures
        !requests(phase_before(rounds, n), rounds[n as int]),
{
    decoding_lasts(rounds, m + 1, n);
}

/// The decoders are asked to decode in the first round in which the waveform is
/// there and the commands have been applied.
pub proof fn caches_are_requested_when_loaded(rounds: Seq<Observation>, n: nat)
    requires
        n < rounds.len(),
        rounds[n as int].loaded && rounds[n as int].commands_done,
        forall|i: int|
            0 <= i < n ==> !((#[trigger] rounds[i]).loaded && rounds[i].commands_done),
    ensures
        requests(phase_before(rounds, n), rounds[n as int]),
{
    still_loading(rounds, n);
}

proof fn still_loading(rounds: Seq<Observation>, n: nat)
    requires
        n <= rounds.len(),
        forall|i: int|
            0 <= i < n ==> !((#[trigger] rounds[i]).loaded && rounds[i].commands_done),
    ensures
        phase_before(rounds, n) == Phase::Loading,
    decreases n,
{
    if n > 0 {
        still_loading(rounds, (n - 1) as nat);
        assert(!(rounds[n - 1].loaded && rounds[n - 1].commands_done));
    }
}

/// What is to be done at the end of a round.
#[derive(Debug)]
pub enum Verdict {
    /// The decoders have finished.
    Finished,
    /// Another round.
    Wait,
    /// The time is over.
    Failed(HeadlessError),
}

/// Decide what is to be done at the end of a round. Finished decoders count
/// even when the time is over.
pub fn decide(phase: Phase, seen: Observation, waves: Option<&LoadedWaves>) -> (verdict: Verdict)
    ensures
        match verdict {
            Verdict::Finished => phase == Phase::Decoding && all_ready(waves),
            Verdict::Wait => !(phase == Phase::Decoding && all_ready(waves)) && !seen.late,
            Verdict::Failed(error) => !(phase == Phase::Decoding && all_ready(waves)) && seen.late
                && error@ == (if phase == Phase::Decoding {
                HeadlessErrorView::DecodersTimedOut { pending: pending_names(waves) }
            } else if seen.loading {
                HeadlessErrorView::LoadTimedOut
            } else {
                HeadlessErrorView::CommandsTimedOut
            }),
        },
{
    if phase == Phase::Decoding && decoder_caches_ready(waves) {
        return Verdict::Finished;
    }
    if !seen.late {
        return Verdict::Wait;
    }
    Verdict::Failed(
        if phase == Phase::Decoding {
            HeadlessError::DecodersTimedOut { pending: pending_decoders(waves) }
        } else if seen.loading {
            HeadlessError::LoadTimedOut
        } else {
            HeadlessError::CommandsTimedOut
        },
    )
}

/// Whether a decoder has been asked to decode and has finished.
pub open spec fn has_result(decoder: DisplayedDecoder) -> bool {
    match decoder.cache {
        Some(entry) => entry.result() is Some,
        None => false,
    }
}

fn is_ready(decoder: &DisplayedDecoder) -> (ready: bool)
    ensures
        ready == has_result(*decoder),
{
    match &decoder.cache {
        Some(entry) => entry.is_ready(),
        None => false,
    }
}

/// Whether every decoder among the items has finished.
pub open spec fn items_ready(items: Seq<(DisplayedItemRef, DisplayedItem)>) -> bool {
    forall|i: int|
        0 <= i < items.len() ==> match (#[trigger] items[i]).1 {
            DisplayedItem::Decoder(decoder) => has_result(decoder),
            DisplayedItem::Other => true,
        }
}

/// Whether every decoder has finished.
pub open spec fn all_ready(waves: Option<&LoadedWaves>) -> bool {
    match waves {
        Some(waves) => items_ready(waves.displayed_items@),
        None => true,
    }
}

/// True when every decoder item has a requested cache that has finished
/// building. A missing cache does not count as ready.
pub fn decoder_caches_ready(waves: Option<&LoadedWaves>) -> (ready: bool)
    ensures
        ready == all_ready(waves),
{
    let loaded = match waves {
        Some(loaded) => loaded,
        None => {
            return true;
        },
    };
    let items = &loaded.displayed_items;
    let mut i: usize = 0;
    while i < items.len()
        invariant
            waves == Some(loaded),
            items == &loaded.displayed_items,
            i <= items.len(),
            items_ready(items@.take(i as int)),
        decreases items.len() - i,
    {
        if let DisplayedItem::Decoder(decoder) = &items[i].1 {
            if !is_ready(decoder) {
                assert(!has_result(items@[i as int].1->Decoder_0));
                return false;
            }
        }
        proof {
            let before = items@.take(i as int);
            let after = items@.take(i + 1);
            assert forall|k: int| 0 <= k < after.len() implies match (#[trigger] after[k]).1 {
                DisplayedItem::Decoder(decoder) => has_result(decoder),
                DisplayedItem::Other => true,
            } by {
                if k < i {
                    assert(before[k] == after[k]);
                }
            }
        }
        i += 1;
    }
    assert(items@.take(i as int) =~= items@);
    true
}

/// The names of those of the first `n` items that are decoders which have not
/// finished.
pub open spec fn pending_among(items: Seq<(DisplayedItemRef, DisplayedItem)>, n: nat) -> Seq<
    Seq<char>,
>
    decreases n,
{
    if n == 0 {
        Seq::empty()
    } else {
        let rest = pending_among(items, (n - 1) as nat);
        match items[n - 1].1 {
            DisplayedItem::Decoder(decoder) => if has_result(decoder) {
                rest
            } else {
                rest.push(decoder.display_name@)
            },
            DisplayedItem::Other => rest,
        }
    }
}

/// The names of the decoders that have not finished.
pub open spec fn pending_names(waves: Option<&LoadedWaves>) -> Seq<Seq<char>> {
    match waves {
        Some(waves) => pending_among(waves.displayed_items@, waves.displayed_items@.len()),
        None => Seq::empty(),
    }
}

/// Names of decoder items whose cache has not finished building.
pub fn pending_decoders(waves: Option<&LoadedWaves>) -> (names: Vec<String>)
    ensures
        text::texts(names@) == pending_names(waves),
{
    let mut names: Vec<String> = Vec::new();
    assert(text::texts(names@) =~= Seq::<Seq<char>>::empty());
    let loaded = match waves {
        Some(loaded) => loaded,
        None => {
            return names;
        },
    };
    let items = &loaded.displayed_items;
    let mut i: usize = 0;
    while i < items.len()
        invariant
            i <= items.len(),
            text::texts(names@) == pending_among(items@, i as nat),
        decreases items.len() - i,
    {
        if let DisplayedItem::Decoder(decoder) = &items[i].1 {
            if !is_ready(decoder) {
                let ghost before = text::texts(names@);
                names.push(decoder.display_name.clone());
                assert(text::texts(names@) =~= before.push(decoder.display_name@));
            }
        }
        i += 1;
    }
    names
}

/// The decoders are ready exactly when none of them is pending.
pub proof fn ready_means_nothing_pending(waves: Option<&LoadedWaves>)
    ensures
        all_ready(waves) <==> pending_names(waves).len() == 0,
{
    if let Some(waves) = waves {
        ready_among(waves.displayed_items@, waves.displayed_items@.len());
        assert(waves.displayed_items@.take(waves.displayed_items@.len() as int)
            =~= waves.displayed_items@);
    }
}

proof fn ready_among(items: Seq<(DisplayedItemRef, DisplayedItem)>, n: nat)
    requires
        n <= items.len(),
    ensures
        items_ready(items.take(n as int)) <==> pending_among(items, n).len() == 0,
    decreases n,
{
    if n > 0 {
        ready_among(items, (n - 1) as nat);
        let before = items.take(n - 1);
        let after = items.take(n as int);
        assert(after[n - 1] == items[n - 1]);
        if items_ready(after) {
            assert forall|k: int| 0 <= k < before.len() implies match (#[trigger] before[k]).1 {
                DisplayedItem::Decoder(decoder) => has_result(decoder),
                DisplayedItem::Other => true,
            } by {
                assert(after[k] == before[k]);
            }
        }
        if items_ready(before) && pending_among(items, n).len() == 0 {
            assert forall|k: int| 0 <= k < after.len() implies match (#[trigger] after[k]).1 {
                DisplayedItem::Decoder(decoder) => has_result(decoder),
                DisplayedItem::Other => true,
            } by {
                if k < n - 1 {
                    assert(after[k] == before[k]);
                }
            }
        }
    }
}

/// What is asked of one decoder.
#[verifier::ext_equal]
pub struct RequestView {
    pub item: DisplayedItemRef,
    pub signals: Seq<SignalId>,
    pub settings: Map<Seq<char>, SettingView>,
}

/// The view of a request.
pub open spec fn request_view(request: (DisplayedItemRef, DecoderCacheKey)) -> RequestView {
    RequestView { item: request.0, signals: request.1.0@, settings: request.1.1@ }
}

/// The views of a list of requests.
pub open spec fn request_views(requests: Seq<(DisplayedItemRef, DecoderCacheKey)>) -> Seq<
    RequestView,
> {
    Seq::new(requests.len(), |i: int| request_view(requests[i]))
}

/// Why a decoder cannot be asked to decode.
pub open spec fn request_fault(waves: WaveContainer, decoder: DisplayedDecoder) -> Option<
    HeadlessErrorView,
> {
    let inputs = input::input_views(decoder.inputs@);
    match (input::first_unresolved(waves, inputs, 0), cache::first_unknown(waves, inputs, 0)) {
        (Some(reason), _) => Some(
            HeadlessErrorView::Unresolved { name: decoder.display_name@, reason },
        ),
        (None, Some(reason)) => Some(HeadlessErrorView::NoKey { reason }),
        (None, None) => None,
    }
}

/// What is asked of a decoder.
pub open spec fn request_of(
    waves: WaveContainer,
    item: DisplayedItemRef,
    decoder: DisplayedDecoder,
) -> RequestView {
    RequestView {
        item,
        signals: input::input_views(decoder.inputs@).map_values(
            |input: InputView| cache::signal_of(waves, input),
        ),
        settings: decoder.settings@,
    }
}

/// The first reason, among the first `n` items, why a decoder cannot be asked.
pub open spec fn first_request_fault(
    waves: WaveContainer,
    items: Seq<(DisplayedItemRef, DisplayedItem)>,
    n: nat,
) -> Option<HeadlessErrorView>
    decreases n,
{
    if n == 0 {
        None
    } else if first_request_fault(waves, items, (n - 1) as nat) is Some {
        first_request_fault(waves, items, (n - 1) as nat)
    } else {
        match items[n - 1].1 {
            DisplayedItem::Decoder(decoder) => request_fault(waves, decoder),
            DisplayedItem::Other => None,
        }
    }
}

/// What is asked of the decoders among the first `n` items.
pub open spec fn requests_of(
    waves: WaveContainer,
    items: Seq<(DisplayedItemRef, DisplayedItem)>,
    n: nat,
) -> Seq<RequestView>
    decreases n,
{
    if n == 0 {
        Seq::empty()
    } else {
        let rest = requests_of(waves, items, (n - 1) as nat);
        match items[n - 1].1 {
            DisplayedItem::Decoder(decoder) => rest.push(
                request_of(waves, items[n - 1].0, decoder),
            ),
            DisplayedItem::Other => rest,
        }
    }
}

/// What is asked of all decoders, or why not. Without a waveform nothing is.
pub open spec fn all_requests(waves: Option<&LoadedWaves>) -> Result<
    Seq<RequestView>,
    HeadlessErrorView,
> {
    match waves {
        None => Ok(Seq::empty()),
        Some(waves) => match waves.container {
            None => Err(HeadlessErrorView::NoWaveform),
            Some(container) => {
                let items = waves.displayed_items@;
                let requests = requests_of(container, items, items.len());
                match first_request_fault(container, items, items.len()) {
                    Some(fault) => Err(fault),
                    None => if requests.len() == 0 {
                        Err(HeadlessErrorView::NoDecoders)
                    } else {
                        Ok(requests)
                    },
                }
            },
        },
    }
}

proof fn faults_stay(
    waves: WaveContainer,
    items: Seq<(DisplayedItemRef, DisplayedItem)>,
    n: nat,
    m: nat,
)
    requires
        n <= m,
        first_request_fault(waves, items, n) is Some,
    ensures
        first_request_fault(waves, items, m) == first_request_fault(waves, items, n),
    decreases m,
{
    if n < m {
        faults_stay(waves, items, n, (m - 1) as nat);
    }
}

/// Cache keys for every decoder item in the loaded waveform.
pub fn decoder_cache_keys(waves: Option<&LoadedWaves>) -> (result: Result<
    Vec<(DisplayedItemRef, DecoderCacheKey)>,
    HeadlessError,
>)
    ensures
        match (result, all_requests(waves)) {
            (Ok(keys), Ok(requests)) => request_views(keys@) == requests,
            (Err(error), Err(fault)) => error@ == fault,
            _ => false,
        },
{
    let mut keys: Vec<(DisplayedItemRef, DecoderCacheKey)> = Vec::new();
    assert(request_views(keys@) =~= Seq::<RequestView>::empty());
    let loaded = match waves {
        Some(loaded) => loaded,
        None => {
            return Ok(keys);
        },
    };
    let container = match &loaded.container {
        Some(container) => container,
        None => {
            return Err(HeadlessError::NoWaveform);
        },
    };
    let items = &loaded.displayed_items;
    let mut i: usize = 0;
    while i < items.len()
        invariant
            i <= items.len(),
            items == &loaded.displayed_items,
            waves == Some(loaded),
            loaded.container == Some(*container),
            first_request_fault(*container, items@, i as nat) is None,
            request_views(keys@) == requests_of(*container, items@, i as nat),
        decreases items.len() - i,
    {
        if let DisplayedItem::Decoder(decoder) = &items[i].1 {
            if let Err(reason) = input::resolve_inputs(container, &decoder.inputs) {
                proof {
                    faults_stay(*container, items@, (i + 1) as nat, items@.len());
                }
                return Err(
                    HeadlessError::Unresolved { name: decoder.display_name.clone(), reason },
                );
            }
            match cache::cache_key(container, &decoder.inputs, &decoder.settings) {
                Ok(key) => {
                    let ghost before = request_views(keys@);
                    let ghost view = request_view((items@[i as int].0, key));
                    keys.push((items[i].0, key));
                    proof {
                        assert(view =~= request_of(*container, items@[i as int].0, *decoder));
                        assert(request_views(keys@) =~= before.push(view));
                    }
                },
                Err(reason) => {
                    proof {
                        faults_stay(*container, items@, (i + 1) as nat, items@.len());
                    }
                    return Err(HeadlessError::NoKey { reason });
                },
            }
        }
        i += 1;
    }
    if keys.len() == 0 {
        assert(request_views(keys@).len() == 0);
        return Err(HeadlessError::NoDecoders);
    }
    assert(request_views(keys@).len() == keys@.len());
    Ok(keys)
}

/// What a decoder gave, or why it gave nothing.
pub open spec fn output_of(decoder: DisplayedDecoder) -> Result<OutputView, HeadlessErrorView> {
    match decoder.cache {
        None => Err(HeadlessErrorView::NoCache { name: decoder.display_name@ }),
        Some(entry) => match entry.result() {
            Some(Ok(data)) => Ok(
                OutputView {
                    decoder: decoder.decoder@,
                    display_name: decoder.display_name@,
                    rows: data@,
                    value_format: decoder.value_format,
                },
            ),
            Some(Err(reason)) => Err(
                HeadlessErrorView::Failed { name: decoder.display_name@, reason: reason@ },
            ),
            None => Err(HeadlessErrorView::StillBuilding { name: decoder.display_name@ }),
        },
    }
}

/// What the decoders among the first `n` items gave, or why the first of them
/// that gave nothing did so.
pub open spec fn outputs_of(items: Seq<(DisplayedItemRef, DisplayedItem)>, n: nat) -> Result<
    Seq<OutputView>,
    HeadlessErrorView,
>
    decreases n,
{
    if n == 0 {
        Ok(Seq::empty())
    } else {
        match (outputs_of(items, (n - 1) as nat), items[n - 1].1) {
            (Err(fault), _) => Err(fault),
            (Ok(rest), DisplayedItem::Other) => Ok(rest),
            (Ok(rest), DisplayedItem::Decoder(decoder)) => match output_of(decoder) {
                Ok(output) => Ok(rest.push(output)),
                Err(fault) => Err(fault),
            },
        }
    }
}

proof fn failures_stay(items: Seq<(DisplayedItemRef, DisplayedItem)>, n: nat, m: nat)
    requires
        n <= m,
        outputs_of(items, n) is Err,
    ensures
        outputs_of(items, m) == outputs_of(items, n),
    decreases m,
{
    if n < m {
        failures_stay(items, n, (m - 1) as nat);
    }
}

/// Collect what the decoders gave.
pub fn collect_outputs(waves: &LoadedWaves) -> (result: Result<Vec<DecodedDecoder>, HeadlessError>)
    ensures
        match (result, outputs_of(waves.displayed_items@, waves.displayed_items@.len())) {
            (Ok(outputs), Ok(views)) => output_views(outputs@) == views,
            (Err(error), Err(fault)) => error@ == fault,
            _ => false,
        },
{
    let items = &waves.displayed_items;
    let mut outputs: Vec<DecodedDecoder> = Vec::new();
    let mut i: usize = 0;
    assert(output_views(outputs@) =~= Seq::<OutputView>::empty());
    while i < items.len()
        invariant
            i <= items.len(),
            items == &waves.displayed_items,
            match outputs_of(items@, i as nat) {
                Ok(views) => output_views(outputs@) == views,
                Err(_) => false,
            },
        decreases items.len() - i,
    {
        if let DisplayedItem::Decoder(decoder) = &items[i].1 {
            let ghost before = output_views(outputs@);
            proof {
                if outputs_of(items@, (i + 1) as nat) is Err {
                    failures_stay(items@, (i + 1) as nat, items@.len());
                }
            }
            match &decoder.cache {
                None => {
                    return Err(HeadlessError::NoCache { name: decoder.display_name.clone() });
                },
                Some(entry) => match entry.get() {
                    Some(Ok(data)) => {
                        let output = DecodedDecoder {
                            decoder: decoder.decoder.clone(),
                            display_name: decoder.display_name.clone(),
                            data: data.clone(),
                            value_format: decoder.value_format,
                        };
                        let ghost view = output@;
                        outputs.push(output);
                        assert(output_views(outputs@) =~= before.push(view));
                    },
                    Some(Err(reason)) => {
                        return Err(
                            HeadlessError::Failed {
                                name: decoder.display_name.clone(),
                                reason: reason.clone(),
                            },
                        );
                    },
                    None => {
                        return Err(
                            HeadlessError::StillBuilding { name: decoder.display_name.clone() },
                        );
                    },
                },
            }
        }
        i += 1;
    }
    Ok(outputs)
}

/// Once every decoder is ready, collecting fails only where a decoder failed.
pub proof fn ready_outputs_only_fail_with_decoder(waves: &LoadedWaves)
    requires
        all_ready(Some(waves)),
    ensures
        match outputs_of(waves.displayed_items@, waves.displayed_items@.len()) {
            Ok(_) => true,
            Err(fault) => fault is Failed,
        },
{
    only_failures(waves.displayed_items@, waves.displayed_items@.len());
}

proof fn only_failures(items: Seq<(DisplayedItemRef, DisplayedItem)>, n: nat)
    requires
        items_ready(items),
        n <= items.len(),
    ensures
        match outputs_of(items, n) {
            Ok(_) => true,
            Err(fault) => fault is Failed,
        },
    decreases n,
{
    if n > 0 {
        only_failures(items, (n - 1) as nat);
        if let DisplayedItem::Decoder(decoder) = items[n - 1].1 {
            assert(has_result(decoder));
        }
    }
}

} // verus!
