//! Parameters of the clocked serial engine.
use vstd::prelude::*;
use crate::decoders::engines::EngineParams;
use crate::decoders::error::{DecoderError, ErrorView};
use crate::decoders::settings;
use crate::decoders::settings::SettingView;
use crate::decoders::value;
use crate::decoders::value::{BitOrder, Edge};
use crate::text;

verus! {

/// How the frame sync signal marks channel slots.
#[derive(Debug, Clone, Copy, PartialEq, Eq, Structural)]
pub enum FrameSyncMode {
    /// A pulse marks the start of a frame; the channels follow in sequence.
    Pulse,
    /// The level of the frame sync selects the channel (I2S-style).
    Level,
}

/// Where a sample is positioned within its slot.
#[derive(Debug, Clone, Copy, PartialEq, Eq, Structural)]
pub enum Justification {
    /// The sample starts at the beginning of the slot (left-justified).
    Left,
    /// The sample ends at the end of the slot (right-justified).
    Right,
}

/// Parameters for the clocked serial engine.
#[derive(Debug, PartialEq)]
pub struct ClockedSerialParams {
    /// Input role carrying the bit clock.
    pub clock: String,
    pub clock_edge: Edge,
    /// Input role carrying the serial data.
    pub data: String,
    /// Input role carrying the frame sync / word select.
    pub frame: String,
    pub frame_mode: FrameSyncMode,
    pub frame_edge: Edge,
    /// Active frame-sync level in [`FrameSyncMode::Level`]; pulse mode selects
    /// the frame start with `frame_edge` instead.
    pub frame_active_high: bool,
    /// Bits per sample.
    pub bits: u32,
    /// Channels (slots) per frame.
    pub channels: u32,
    pub bit_order: BitOrder,
    pub justification: Justification,
    /// Clock cycles between a frame sync edge and the start of the slot
    /// window. The sample is justified within the window.
    pub offset: u32,
    pub signed: bool,
    /// Add an error row for frames that end before every configured channel
    /// has been read.
    pub show_errors: bool,
    /// Clock cycles per slot. Defaults to `bits`.
    pub slot_width: Option<u32>,
}

/// A [`ClockedSerialParams`] with its texts as sequences of characters.
#[verifier::ext_equal]
pub struct ParamsView {
    pub clock: Seq<char>,
    pub clock_edge: Edge,
    pub data: Seq<char>,
    pub frame: Seq<char>,
    pub frame_mode: FrameSyncMode,
    pub frame_edge: Edge,
    pub frame_active_high: bool,
    pub bits: u32,
    pub channels: u32,
    pub bit_order: BitOrder,
    pub justification: Justification,
    pub offset: u32,
    pub signed: bool,
    pub show_errors: bool,
    pub slot_width: Option<u32>,
}

impl View for ClockedSerialParams {
    type V = ParamsView;

    open spec fn view(&self) -> ParamsView {
        ParamsView {
            clock: self.clock@,
            clock_edge: self.clock_edge,
            data: self.data@,
            frame: self.frame@,
            frame_mode: self.frame_mode,
            frame_edge: self.frame_edge,
            frame_active_high: self.frame_active_high,
            bits: self.bits,
            channels: self.channels,
            bit_order: self.bit_order,
            justification: self.justification,
            offset: self.offset,
            signed: self.signed,
            show_errors: self.show_errors,
            slot_width: self.slot_width,
        }
    }
}

/// Upper bound on channels, to keep user schemas from requesting enormous
/// allocations. Well above any real TDM bus.
pub const MAX_CHANNELS: u32 = 1024;

/// What is wrong with the parameters, if anything.
pub open spec fn limits_fault(params: ParamsView) -> Option<ErrorView> {
    if params.bits == 0 || params.bits > 64 {
        Some(ErrorView::BitsOutOfRange)
    } else if params.channels == 0 {
        Some(ErrorView::NoChannels)
    } else if params.channels > MAX_CHANNELS {
        Some(ErrorView::TooManyChannels)
    } else if params.frame_mode == FrameSyncMode::Level && params.channels != 2 {
        Some(ErrorView::LevelModeChannels)
    } else if params.slot_width is Some && params.slot_width.unwrap() < params.bits {
        Some(ErrorView::SlotTooNarrow)
    } else {
        None
    }
}

/// The frame sync mode that a parameter names.
pub open spec fn frame_mode_named(name: Seq<char>) -> Option<FrameSyncMode> {
    if name == "pulse"@ {
        Some(FrameSyncMode::Pulse)
    } else if name == "level"@ {
        Some(FrameSyncMode::Level)
    } else {
        None
    }
}

/// The justification that a parameter names.
pub open spec fn justification_named(name: Seq<char>) -> Option<Justification> {
    if name == "left"@ {
        Some(Justification::Left)
    } else if name == "right"@ {
        Some(Justification::Right)
    } else {
        None
    }
}

/// The closest count to a number.
pub open spec fn as_count(n: i64) -> u32 {
    if n < 0 {
        0
    } else if n > u32::MAX {
        u32::MAX
    } else {
        n as u32
    }
}

/// The first parameter, if any, that is missing or does not name anything.
pub open spec fn names_fault(params: Map<Seq<char>, SettingView>) -> Option<ErrorView> {
    if settings::enum_in(params, "clock"@) is None {
        Some(ErrorView::MissingParameter { name: "clock"@ })
    } else if settings::enum_in(params, "data"@) is None {
        Some(ErrorView::MissingParameter { name: "data"@ })
    } else if settings::enum_in(params, "frame"@) is None {
        Some(ErrorView::MissingParameter { name: "frame"@ })
    } else if value::edge_named(settings::enum_or(params, "clock_edge"@, "rising"@)) is None {
        Some(ErrorView::InvalidParameter { name: "clock_edge"@ })
    } else if value::edge_named(settings::enum_or(params, "frame_edge"@, "rising"@)) is None {
        Some(ErrorView::InvalidParameter { name: "frame_edge"@ })
    } else if value::bit_order_named(settings::enum_or(params, "bit_order"@, "msb"@)) is None {
        Some(ErrorView::InvalidParameter { name: "bit_order"@ })
    } else if frame_mode_named(settings::enum_or(params, "frame_mode"@, "pulse"@)) is None {
        Some(ErrorView::InvalidParameter { name: "frame_mode"@ })
    } else if justification_named(settings::enum_or(params, "justification"@, "left"@)) is None {
        Some(ErrorView::InvalidParameter { name: "justification"@ })
    } else {
        None
    }
}

/// The typed parameters that generic engine parameters stand for.
pub open spec fn typed_params(params: Map<Seq<char>, SettingView>) -> Result<
    ParamsView,
    ErrorView,
> {
    match names_fault(params) {
        Some(fault) => Err(fault),
        None => Ok(
            ParamsView {
                clock: settings::enum_in(params, "clock"@).unwrap(),
                clock_edge: value::edge_named(
                    settings::enum_or(params, "clock_edge"@, "rising"@),
                ).unwrap(),
                data: settings::enum_in(params, "data"@).unwrap(),
                frame: settings::enum_in(params, "frame"@).unwrap(),
                frame_mode: frame_mode_named(
                    settings::enum_or(params, "frame_mode"@, "pulse"@),
                ).unwrap(),
                frame_edge: value::edge_named(
                    settings::enum_or(params, "frame_edge"@, "rising"@),
                ).unwrap(),
                frame_active_high: settings::bool_in(params, "frame_active_high"@, true),
                bits: as_count(settings::integer_in(params, "bits"@, 16)),
                channels: as_count(settings::integer_in(params, "channels"@, 2)),
                bit_order: value::bit_order_named(
                    settings::enum_or(params, "bit_order"@, "msb"@),
                ).unwrap(),
                justification: justification_named(
                    settings::enum_or(params, "justification"@, "left"@),
                ).unwrap(),
                offset: as_count(settings::integer_in(params, "offset"@, 0)),
                signed: settings::bool_in(params, "signed"@, true),
                show_errors: settings::bool_in(params, "show_errors"@, true),
                slot_width: if settings::integer_in(params, "slot_width"@, 0) > 0 {
                    Some(as_count(settings::integer_in(params, "slot_width"@, 0)))
                } else {
                    None
                },
            },
        ),
    }
}

fn to_count(n: i64) -> (count: u32)
    ensures
        count == as_count(n),
{
    if n < 0 {
        0
    } else if n > u32::MAX as i64 {
        u32::MAX
    } else {
        n as u32
    }
}

fn parse_frame_mode(name: &str) -> (mode: Option<FrameSyncMode>)
    ensures
        mode == frame_mode_named(name@),
{
    if text::same_text(name, "pulse") {
        Some(FrameSyncMode::Pulse)
    } else if text::same_text(name, "level") {
        Some(FrameSyncMode::Level)
    } else {
        None
    }
}

fn parse_justification(name: &str) -> (justification: Option<Justification>)
    ensures
        justification == justification_named(name@),
{
    if text::same_text(name, "left") {
        Some(Justification::Left)
    } else if text::same_text(name, "right") {
        Some(Justification::Right)
    } else {
        None
    }
}

fn missing(name: &str) -> (error: DecoderError)
    ensures
        error@ == (ErrorView::MissingParameter { name: name@ }),
{
    DecoderError::MissingParameter { name: name.to_owned() }
}

fn invalid(name: &str) -> (error: DecoderError)
    ensures
        error@ == (ErrorView::InvalidParameter { name: name@ }),
{
    DecoderError::InvalidParameter { name: name.to_owned() }
}

/// Clock cycles per slot.
pub open spec fn slot_cycles(params: ParamsView) -> u32 {
    match params.slot_width {
        Some(width) => width,
        None => params.bits,
    }
}

impl ClockedSerialParams {
    /// Clock cycles per slot.
    pub fn slot_width(&self) -> (width: u32)
        ensures
            width == slot_cycles(self@),
    {
        match self.slot_width {
            Some(width) => width,
            None => self.bits,
        }
    }

    /// Resolve the typed parameters from generic engine parameters.
    pub fn from_params(params: &EngineParams) -> (result: Result<Self, DecoderError>)
        ensures
            match (result, typed_params(settings::setting_views(params@))) {
                (Ok(typed), Ok(view)) => typed@ == view,
                (Err(error), Err(fault)) => error@ == fault,
                _ => false,
            },
    {
        let clock = match settings::enum_of(params, "clock") {
            Some(clock) => clock,
            None => {
                return Err(missing("clock"));
            },
        };
        let data = match settings::enum_of(params, "data") {
            Some(data) => data,
            None => {
                return Err(missing("data"));
            },
        };
        let frame = match settings::enum_of(params, "frame") {
            Some(frame) => frame,
            None => {
                return Err(missing("frame"));
            },
        };
        let clock_edge = match Edge::parse(settings::text_or(params, "clock_edge", "rising").as_str()) {
            Some(edge) => edge,
            None => {
                return Err(invalid("clock_edge"));
            },
        };
        let frame_edge = match Edge::parse(settings::text_or(params, "frame_edge", "rising").as_str()) {
            Some(edge) => edge,
            None => {
                return Err(invalid("frame_edge"));
            },
        };
        let bit_order = match BitOrder::parse(settings::text_or(params, "bit_order", "msb").as_str()) {
            Some(order) => order,
            None => {
                return Err(invalid("bit_order"));
            },
        };
        let frame_mode = match parse_frame_mode(settings::text_or(params, "frame_mode", "pulse").as_str()) {
            Some(mode) => mode,
            None => {
                return Err(invalid("frame_mode"));
            },
        };
        let justification = match parse_justification(
            settings::text_or(params, "justification", "left").as_str(),
        ) {
            Some(justification) => justification,
            None => {
                return Err(invalid("justification"));
            },
        };
        let slot_width: i64 = settings::integer_of(params, "slot_width", 0);
        Ok(
            ClockedSerialParams {
                clock,
                clock_edge,
                data,
                frame,
                frame_mode,
                frame_edge,
                frame_active_high: settings::bool_of(params, "frame_active_high", true),
                bits: to_count(settings::integer_of(params, "bits", 16)),
                channels: to_count(settings::integer_of(params, "channels", 2)),
                bit_order,
                justification,
                offset: to_count(settings::integer_of(params, "offset", 0)),
                signed: settings::bool_of(params, "signed", true),
                show_errors: settings::bool_of(params, "show_errors", true),
                slot_width: if slot_width > 0 {
                    Some(to_count(slot_width))
                } else {
                    None
                },
            },
        )
    }

    /// Validate the parameters.
    pub fn validate(&self) -> (result: Result<(), DecoderError>)
        ensures
            match (result, limits_fault(self@)) {
                (Ok(()), None) => true,
                (Err(error), Some(fault)) => error@ == fault,
                _ => false,
            },
    {
        if self.bits == 0 || self.bits > 64 {
            return Err(DecoderError::BitsOutOfRange);
        }
        if self.channels == 0 {
            return Err(DecoderError::NoChannels);
        }
        if self.channels > MAX_CHANNELS {
            return Err(DecoderError::TooManyChannels);
        }
        if self.frame_mode == FrameSyncMode::Level && self.channels != 2 {
            return Err(DecoderError::LevelModeChannels);
        }
        if let Some(width) = self.slot_width {
            if width < self.bits {
                return Err(DecoderError::SlotTooNarrow);
            }
        }
        Ok(())
    }
}

impl Clone for ClockedSerialParams {
    fn clone(&self) -> (copy: Self)
        ensures
            copy@ == self@,
    {
        ClockedSerialParams {
            clock: self.clock.clone(),
            clock_edge: self.clock_edge,
            data: self.data.clone(),
            frame: self.frame.clone(),
            frame_mode: self.frame_mode,
            frame_edge: self.frame_edge,
            frame_active_high: self.frame_active_high,
            bits: self.bits,
            channels: self.channels,
            bit_order: self.bit_order,
            justification: self.justification,
            offset: self.offset,
            signed: self.signed,
            show_errors: self.show_errors,
            slot_width: self.slot_width,
        }
    }
}

impl Default for ClockedSerialParams {
    fn default() -> (params: Self)
        ensures
            params@ == (ParamsView {
                clock: "bitclk"@,
                clock_edge: Edge::Rising,
                data: "data"@,
                frame: "frame_sync"@,
                frame_mode: FrameSyncMode::Pulse,
                frame_edge: Edge::Rising,
                frame_active_high: true,
                bits: 16,
                channels: 2,
                bit_order: BitOrder::MsbFirst,
                justification: Justification::Left,
                offset: 0,
                signed: true,
                show_errors: true,
                slot_width: None,
            }),
    {
        ClockedSerialParams {
            clock: "bitclk".to_owned(),
            clock_edge: Edge::Rising,
            data: "data".to_owned(),
            frame: "frame_sync".to_owned(),
            frame_mode: FrameSyncMode::Pulse,
            frame_edge: Edge::Rising,
            frame_active_high: true,
            bits: 16,
            channels: 2,
            bit_order: BitOrder::MsbFirst,
            justification: Justification::Left,
            offset: 0,
            signed: true,
            show_errors: true,
            slot_width: None,
        }
    }
}

} // verus!
