//! The items shown beside the waveform, as far as decoders are concerned.
use vstd::prelude::*;
use crate::decoders::cache::DecoderCacheEntry;
use crate::decoders::input;
use crate::decoders::input::{DecoderInput, InputView};
use crate::decoders::settings::{DecoderSettings, SettingView};
use crate::decoders::value::ValueFormat;

verus! {

/// A displayed item.
#[derive(Debug, Clone, Copy, PartialEq, Eq, Structural)]
pub struct DisplayedItemRef(pub usize);

/// How an analog waveform is drawn.
#[derive(Debug, Clone, Copy, PartialEq, Eq, Structural)]
pub enum AnalogRenderStyle {
    Step,
    Interpolated,
}

/// What an analog waveform is scaled to.
#[derive(Debug, Clone, Copy, PartialEq, Eq, Structural)]
pub enum AnalogYAxisScale {
    Viewport,
    Global,
    TypeLimits,
}

/// How the rows of a decoder are drawn as analog waveforms.
#[derive(Debug, Clone, Copy, PartialEq, Eq, Structural)]
pub struct AnalogSettings {
    pub render_style: AnalogRenderStyle,
    pub y_axis_scale: AnalogYAxisScale,
}

/// A decoder among the displayed items.
pub struct DisplayedDecoder {
    /// The identifier of the decoder.
    pub decoder: String,
    pub inputs: Vec<DecoderInput>,
    pub settings: DecoderSettings,
    pub display_name: String,
    pub show_samples: bool,
    pub value_format: ValueFormat,
    pub analog: Option<AnalogSettings>,
    /// The decoded data, once it has been asked for.
    pub cache: Option<DecoderCacheEntry>,
}

/// What is configured of a [`DisplayedDecoder`], with its texts as sequences of
/// characters.
#[verifier::ext_equal]
pub struct DisplayedView {
    pub decoder: Seq<char>,
    pub inputs: Seq<InputView>,
    pub settings: Map<Seq<char>, SettingView>,
    pub display_name: Seq<char>,
    pub show_samples: bool,
    pub value_format: ValueFormat,
    pub analog: Option<AnalogSettings>,
}

impl View for DisplayedDecoder {
    type V = DisplayedView;

    open spec fn view(&self) -> DisplayedView {
        DisplayedView {
            decoder: self.decoder@,
            inputs: input::input_views(self.inputs@),
            settings: self.settings@,
            display_name: self.display_name@,
            show_samples: self.show_samples,
            value_format: self.value_format,
            analog: self.analog,
        }
    }
}

/// A displayed item, which is a decoder or something else.
pub enum DisplayedItem {
    Decoder(DisplayedDecoder),
    Other,
}

} // verus!
