//! Keeping the results of decoders.
use std::sync::Arc;
use vstd::prelude::*;
use crate::decoders::error::{DecoderError, ErrorView};
use crate::decoders::input;
use crate::decoders::input::{DecoderInput, InputView, SignalId, WaveContainer};
use crate::decoders::settings::DecoderSettings;
use crate::decoders::value::DecodedData;

verus! {

/// Cache key for decoded data: the input signals and the decoder settings.
pub type DecoderCacheKey = (Vec<SignalId>, DecoderSettings);

/// The first variable, from position `from` on, that the waveform does not
/// know.
pub open spec fn first_unknown(
    waves: WaveContainer,
    inputs: Seq<InputView>,
    from: int,
) -> Option<ErrorView>
    decreases inputs.len() - from,
{
    if from < 0 || from >= inputs.len() {
        None
    } else if input::variable_index(waves.variables@, inputs[from].variable, 0) is None {
        Some(
            ErrorView::UnknownVariable { variable: input::full_path(inputs[from].variable) },
        )
    } else {
        first_unknown(waves, inputs, from + 1)
    }
}

/// The signal of an input's variable.
pub open spec fn signal_of(waves: WaveContainer, input: InputView) -> SignalId {
    waves.variables@[input::variable_index(waves.variables@, input.variable, 0).unwrap()].signal
}

/// Compute the cache key for a decoder configuration.
pub fn cache_key(
    waves: &WaveContainer,
    inputs: &Vec<DecoderInput>,
    settings: &DecoderSettings,
) -> (key: Result<DecoderCacheKey, DecoderError>)
    ensures
        match (key, first_unknown(*waves, input::input_views(inputs@), 0)) {
            (Ok((signals, kept)), None) => signals@ == input::input_views(inputs@).map_values(
                |input: InputView| signal_of(*waves, input),
            ) && kept@ == settings@,
            (Err(error), Some(fault)) => error@ == fault,
            _ => false,
        },
{
    let mut signals: Vec<SignalId> = Vec::new();
    let mut i: usize = 0;
    while i < inputs.len()
        invariant
            i <= inputs.len(),
            signals.len() == i,
            forall|k: int|
                0 <= k < i ==> #[trigger] signals@[k] == signal_of(*waves, inputs@[k]@),
            first_unknown(*waves, input::input_views(inputs@), 0) == first_unknown(
                *waves,
                input::input_views(inputs@),
                i as int,
            ),
        decreases inputs.len() - i,
    {
        assert(input::input_views(inputs@)[i as int] == inputs@[i as int]@);
        match waves.signal_id(&inputs[i].variable_ref) {
            Ok(signal) => signals.push(signal),
            Err(error) => {
                return Err(error);
            },
        }
        i += 1;
    }
    Ok((signals, settings.clone()))
}

/// A decode result, shared once it is there.
pub struct DecoderCacheEntry {
    inner: Option<Result<Arc<DecodedData>, String>>,
    pub key: DecoderCacheKey,
    pub generation: u64,
}

impl DecoderCacheEntry {
    /// The result, once it has been stored.
    pub closed spec fn result(&self) -> Option<Result<Arc<DecodedData>, String>> {
        self.inner
    }

    /// What the entry holds the result for.
    pub closed spec fn identity(&self) -> (DecoderCacheKey, u64) {
        (self.key, self.generation)
    }

    /// An entry without a result.
    pub fn new(key: DecoderCacheKey, generation: u64) -> (entry: Self)
        ensures
            entry.result() is None,
            entry.identity() == (key, generation),
    {
        DecoderCacheEntry { inner: None, key, generation }
    }

    /// Whether a result has been stored.
    pub fn is_ready(&self) -> (ready: bool)
        ensures
            ready == (self.result() is Some),
    {
        self.inner.is_some()
    }

    /// The result, if one has been stored.
    pub fn get(&self) -> (result: Option<&Result<Arc<DecodedData>, String>>)
        ensures
            match result {
                Some(found) => self.result() == Some(*found),
                None => self.result() is None,
            },
    {
        self.inner.as_ref()
    }

    /// Store a result. Only the first one is kept.
    pub fn set(&mut self, result: Result<Arc<DecodedData>, String>)
        ensures
            final(self).result() == (match old(self).result() {
                Some(first) => Some(first),
                None => Some(result),
            }),
            final(self).identity() == old(self).identity(),
    {
        if self.inner.is_none() {
            self.inner = Some(result);
        }
    }
}

} // verus!
