//! Decoded values and the rows they are shown in.
use vstd::prelude::*;
#[allow(unused_imports)]
use vstd::arithmetic::power2;
#[allow(unused_imports)]
use vstd::string::*;
use crate::bits;
use crate::text;

verus! {

/// A clock edge.
#[derive(Debug, Clone, Copy, PartialEq, Eq, Structural)]
pub enum Edge {
    Rising,
    Falling,
}

/// The edge that a word names.
pub open spec fn edge_named(value: Seq<char>) -> Option<Edge> {
    if value == "rising"@ || value == "rise"@ {
        Some(Edge::Rising)
    } else if value == "falling"@ || value == "fall"@ {
        Some(Edge::Falling)
    } else {
        None
    }
}

impl Edge {
    /// The edge that `value` names.
    pub fn parse(value: &str) -> (edge: Option<Self>)
        ensures
            edge == edge_named(value@),
    {
        if text::same_text(value, "rising") || text::same_text(value, "rise") {
            Some(Edge::Rising)
        } else if text::same_text(value, "falling") || text::same_text(value, "fall") {
            Some(Edge::Falling)
        } else {
            None
        }
    }
}

/// The order in which the bits of a value are transmitted.
#[derive(Debug, Clone, Copy, PartialEq, Eq, Structural)]
pub enum BitOrder {
    MsbFirst,
    LsbFirst,
}

/// The bit order that a word names.
pub open spec fn bit_order_named(value: Seq<char>) -> Option<BitOrder> {
    if value == "msb"@ || value == "msb_first"@ {
        Some(BitOrder::MsbFirst)
    } else if value == "lsb"@ || value == "lsb_first"@ {
        Some(BitOrder::LsbFirst)
    } else {
        None
    }
}

impl BitOrder {
    /// The bit order that `value` names.
    pub fn parse(value: &str) -> (order: Option<Self>)
        ensures
            order == bit_order_named(value@),
    {
        if text::same_text(value, "msb") || text::same_text(value, "msb_first") {
            Some(BitOrder::MsbFirst)
        } else if text::same_text(value, "lsb") || text::same_text(value, "lsb_first") {
            Some(BitOrder::LsbFirst)
        } else {
            None
        }
    }
}

/// How integer values are displayed as text.
#[derive(Debug, Clone, Copy, PartialEq, Eq, Structural)]
pub enum ValueFormat {
    Decimal,
    Hexadecimal,
}

impl Default for ValueFormat {
    fn default() -> (format: Self)
        ensures
            format == ValueFormat::Decimal,
    {
        ValueFormat::Decimal
    }
}

impl ValueFormat {
    /// The name shown for this format.
    pub fn label(self) -> (label: &'static str)
        ensures
            label@ == (match self {
                ValueFormat::Decimal => "Decimal"@,
                ValueFormat::Hexadecimal => "Hexadecimal"@,
            }),
    {
        match self {
            ValueFormat::Decimal => "Decimal",
            ValueFormat::Hexadecimal => "Hexadecimal",
        }
    }
}

/// The kind of a value, which decides its color.
#[derive(Debug, Clone, Copy, PartialEq, Eq, Structural)]
pub enum ValueKind {
    Normal,
    Undef,
    HighImp,
    DontCare,
}

/// The decoded value of one item.
#[derive(Debug, PartialEq)]
pub enum DecodedValue {
    /// An integer with its bit width, shown in decimal or hexadecimal.
    Integer { value: i64, bits: u32 },
    /// Ready text, such as a protocol control word.
    Text(String),
    Undef,
    HighImp,
    DontCare,
}

/// A [`DecodedValue`] with its text as a sequence of characters.
#[verifier::ext_equal]
pub enum ValueView {
    Integer { value: int, bits: nat },
    Text(Seq<char>),
    Undef,
    HighImp,
    DontCare,
}

impl View for DecodedValue {
    type V = ValueView;

    open spec fn view(&self) -> ValueView {
        match *self {
            DecodedValue::Integer { value, bits } => ValueView::Integer {
                value: value as int,
                bits: bits as nat,
            },
            DecodedValue::Text(text) => ValueView::Text(text@),
            DecodedValue::Undef => ValueView::Undef,
            DecodedValue::HighImp => ValueView::HighImp,
            DecodedValue::DontCare => ValueView::DontCare,
        }
    }
}

/// The bit width that hexadecimal text is made for.
pub open spec fn shown_bits(bits: nat) -> nat {
    if bits < 1 {
        1
    } else if bits > 64 {
        64
    } else {
        bits
    }
}

/// How a value reads in a format. Hexadecimal text shows the value's lowest
/// bits, as many as the value is wide, in whole digits.
pub open spec fn formatted(value: ValueView, format: ValueFormat) -> Seq<char> {
    match value {
        ValueView::Integer { value, bits } => match format {
            ValueFormat::Decimal => text::signed_decimal(value),
            ValueFormat::Hexadecimal => "0x"@ + text::hexadecimal(
                bits::low_bits(value, shown_bits(bits)),
                (shown_bits(bits) + 3) / 4,
            ),
        },
        ValueView::Text(text) => text,
        ValueView::Undef => "x"@,
        ValueView::HighImp => "z"@,
        ValueView::DontCare => "-"@,
    }
}

impl DecodedValue {
    /// An integer value of `bits` bits.
    pub fn integer(value: i64, bits: u32) -> (made: Self)
        ensures
            made@ == (ValueView::Integer { value: value as int, bits: bits as nat }),
            made == (DecodedValue::Integer { value, bits }),
    {
        DecodedValue::Integer { value, bits }
    }

    /// A text value.
    pub fn text(text: &str) -> (made: Self)
        ensures
            made@ == ValueView::Text(text@),
    {
        DecodedValue::Text(text.to_owned())
    }

    /// Format this value for display.
    pub fn format(&self, format: ValueFormat) -> (shown: String)
        ensures
            shown@ == formatted(self@, format),
    {
        match self {
            DecodedValue::Integer { value, bits } => match format {
                ValueFormat::Decimal => {
                    let mut shown = String::new();
                    text::push_signed(&mut shown, *value);
                    assert(shown@ =~= text::signed_decimal(*value as int));
                    shown
                },
                ValueFormat::Hexadecimal => {
                    let bits: u32 = if *bits < 1 {
                        1
                    } else if *bits > 64 {
                        64
                    } else {
                        *bits
                    };
                    let mut shown = "0x".to_owned();
                    text::push_hexadecimal(
                        &mut shown,
                        bits::mask_low_bits(*value, bits),
                        (bits + 3) / 4,
                    );
                    shown
                },
            },
            DecodedValue::Text(text) => text.clone(),
            DecodedValue::Undef => "x".to_owned(),
            DecodedValue::HighImp => "z".to_owned(),
            DecodedValue::DontCare => "-".to_owned(),
        }
    }

    /// The kind that decides the color of this value.
    pub fn kind(&self) -> (kind: ValueKind)
        ensures
            kind == (match self@ {
                ValueView::Integer { .. } | ValueView::Text(_) => ValueKind::Normal,
                ValueView::Undef => ValueKind::Undef,
                ValueView::HighImp => ValueKind::HighImp,
                ValueView::DontCare => ValueKind::DontCare,
            }),
    {
        match self {
            DecodedValue::Integer { .. } => ValueKind::Normal,
            DecodedValue::Text(_) => ValueKind::Normal,
            DecodedValue::Undef => ValueKind::Undef,
            DecodedValue::HighImp => ValueKind::HighImp,
            DecodedValue::DontCare => ValueKind::DontCare,
        }
    }
}

impl Clone for DecodedValue {
    fn clone(&self) -> (copy: Self)
        ensures
            copy == *self,
    {
        match self {
            DecodedValue::Integer { value, bits } => DecodedValue::Integer {
                value: *value,
                bits: *bits,
            },
            DecodedValue::Text(text) => DecodedValue::Text(text.clone()),
            DecodedValue::Undef => DecodedValue::Undef,
            DecodedValue::HighImp => DecodedValue::HighImp,
            DecodedValue::DontCare => DecodedValue::DontCare,
        }
    }
}

/// One decoded item: a sample, a protocol word, or a message.
#[derive(Debug, PartialEq)]
pub struct DecodedItem {
    pub start: u64,
    pub end: u64,
    pub value: DecodedValue,
}

/// A [`DecodedItem`] with its value's text as a sequence of characters.
#[verifier::ext_equal]
pub struct ItemView {
    pub start: u64,
    pub end: u64,
    pub value: ValueView,
}

impl View for DecodedItem {
    type V = ItemView;

    open spec fn view(&self) -> ItemView {
        ItemView { start: self.start, end: self.end, value: self.value@ }
    }
}

impl Clone for DecodedItem {
    fn clone(&self) -> (copy: Self)
        ensures
            copy == *self,
    {
        DecodedItem { start: self.start, end: self.end, value: self.value.clone() }
    }
}

/// The views of a list of items.
pub open spec fn item_views(items: Seq<DecodedItem>) -> Seq<ItemView> {
    Seq::new(items.len(), |i: int| items[i]@)
}

/// The values an integer of `bits` bits can take, for scaling an analog plot.
#[derive(Debug, Clone, Copy, PartialEq, Eq, Structural)]
pub struct NumericRange {
    pub bits: u32,
    pub signed: bool,
}

impl NumericRange {
    /// The smallest value.
    pub open spec fn min(self) -> int {
        if self.signed {
            -power2::pow2((self.bits - 1) as nat)
        } else {
            0
        }
    }

    /// The largest value.
    pub open spec fn max(self) -> int {
        if self.signed {
            power2::pow2((self.bits - 1) as nat) - 1
        } else {
            power2::pow2(self.bits as nat) - 1
        }
    }
}

/// One display row of decoded items.
#[derive(Debug, PartialEq)]
pub struct DecodedRow {
    pub name: String,
    /// Range of the integer items, for scaling an analog plot.
    pub numeric_range: Option<NumericRange>,
    pub items: Vec<DecodedItem>,
}

/// A [`DecodedRow`] with its texts as sequences of characters.
#[verifier::ext_equal]
pub struct RowView {
    pub name: Seq<char>,
    pub numeric_range: Option<NumericRange>,
    pub items: Seq<ItemView>,
}

impl View for DecodedRow {
    type V = RowView;

    open spec fn view(&self) -> RowView {
        RowView {
            name: self.name@,
            numeric_range: self.numeric_range,
            items: item_views(self.items@),
        }
    }
}

impl Clone for DecodedRow {
    fn clone(&self) -> (copy: Self)
        ensures
            copy@ == self@,
    {
        let items = self.items.clone();
        assert(item_views(items@) =~= item_views(self.items@));
        DecodedRow { name: self.name.clone(), numeric_range: self.numeric_range, items }
    }
}

/// The views of a list of rows.
pub open spec fn row_views(rows: Seq<DecodedRow>) -> Seq<RowView> {
    Seq::new(rows.len(), |i: int| rows[i]@)
}

/// The result of running one decoder.
#[derive(Debug, PartialEq)]
pub struct DecodedData {
    pub rows: Vec<DecodedRow>,
}

impl View for DecodedData {
    type V = Seq<RowView>;

    open spec fn view(&self) -> Seq<RowView> {
        row_views(self.rows@)
    }
}

impl Clone for DecodedData {
    fn clone(&self) -> (copy: Self)
        ensures
            copy@ == self@,
    {
        let rows = self.rows.clone();
        assert(row_views(rows@) =~= row_views(self.rows@));
        DecodedData { rows }
    }
}

} // verus!
