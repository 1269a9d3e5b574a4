//! The rows shown for the subframes of a stream.
use vstd::prelude::*;
#[allow(unused_imports)]
use vstd::arithmetic::power2;
use crate::bits;
use crate::decoders::engines::biphase_audio::blocks;
use crate::decoders::engines::biphase_audio::blocks::Block;
use crate::decoders::engines::biphase_audio::channel_status;
use crate::decoders::engines::biphase_audio::framing;
use crate::decoders::engines::biphase_audio::framing::{HeaderKind, Subframe, SubframeView};
use crate::decoders::engines::biphase_audio::{BiphaseAudioParams, ParamsView, WordBits};
use crate::decoders::value;
use crate::decoders::value::{
    DecodedData, DecodedItem, DecodedRow, DecodedValue, ItemView, NumericRange, RowView, ValueView,
};

verus! {

/// The number that `count` bits stand for, the least significant one at
/// `first`.
pub open spec fn word_value(bits: Seq<bool>, first: int, count: nat) -> int
    decreases count,
{
    if count == 0 {
        0
    } else {
        word_value(bits, first, (count - 1) as nat) + if bits[first + count - 1] {
            power2::pow2((count - 1) as nat) as int
        } else {
            0
        }
    }
}

/// The length of the audio word that a subframe can carry, closest to the
/// given one.
pub open spec fn carried_bits(word_bits: u32) -> u32 {
    if word_bits < 16 {
        16
    } else if word_bits > 24 {
        24
    } else {
        word_bits
    }
}

/// The audio word of a subframe. Its most significant bit is slot 27; its least
/// significant one moves down as the word gets shorter.
pub open spec fn audio_word(bits: Seq<bool>, word_bits: u32) -> int {
    let carried = carried_bits(word_bits);
    word_value(bits, 24 - carried, carried as nat)
}

/// A number read as two's complement of `bits` bits.
pub open spec fn sign_extended(value: int, bits: u32) -> int {
    if bits >= 64 {
        value
    } else {
        bits::two_complement(bits::low_bits(value, bits as nat) as int, bits as nat)
    }
}

/// The sample of a subframe.
pub open spec fn sample_of(bits: Seq<bool>, word_bits: u32, signed: bool) -> int {
    if signed {
        sign_extended(audio_word(bits, word_bits), word_bits)
    } else {
        audio_word(bits, word_bits)
    }
}

/// A word is not negative, and below two to the power of its length.
pub proof fn word_value_range(bits: Seq<bool>, first: int, count: nat)
    ensures
        0 <= word_value(bits, first, count) < power2::pow2(count),
    decreases count,
{
    if count == 0 {
        power2::lemma2_to64();
    } else {
        word_value_range(bits, first, (count - 1) as nat);
        bits::pow2_next((count - 1) as nat);
    }
}

/// Extract the audio word (MSB at slot 27, LSB at slot 4/8/12).
pub fn extract_audio(bits: &[bool; 28], word_bits: u32) -> (value: i64)
    ensures
        value == audio_word(bits@, word_bits),
{
    let carried: u32 = if word_bits < 16 {
        16
    } else if word_bits > 24 {
        24
    } else {
        word_bits
    };
    let first: usize = (24 - carried) as usize;
    let mut value: i64 = 0;
    let mut offset: u32 = 0;
    while offset < carried
        invariant
            offset <= carried,
            16 <= carried <= 24,
            first == 24 - carried,
            value == word_value(bits@, first as int, offset as nat),
        decreases carried - offset,
    {
        proof {
            word_value_range(bits@, first as int, offset as nat);
            bits::pow2_monotone(offset as nat, 24);
            power2::lemma2_to64();
        }
        if bits[first + offset as usize] {
            value = value + bits::power_of_two(offset) as i64;
        }
        offset += 1;
    }
    value
}

/// Read `value` as two's complement of `bits` bits.
pub fn sign_extend(value: i64, bits: u32) -> (extended: i64)
    requires
        bits > 0,
    ensures
        extended == sign_extended(value as int, bits),
{
    if bits >= 64 {
        return value;
    }
    let raw = bits::mask_low_bits(value, bits);
    let half = bits::power_of_two(bits - 1);
    proof {
        bits::pow2_next((bits - 1) as nat);
        bits::pow2_monotone(bits as nat, 63);
        bits::pow2_64();
        vstd::arithmetic::div_mod::lemma_mod_bound(
            value as int,
            power2::pow2(bits as nat) as int,
        );
    }
    if raw >= half {
        (raw as i128 - 2 * (half as i128)) as i64
    } else {
        raw as i64
    }
}

/// The word length that the first block to state one states, on channel A or
/// else on B, from the block at `from` on.
pub open spec fn stated_word_bits(blocks: Seq<Block>, from: int) -> Option<u32>
    decreases blocks.len() - from,
{
    if from < 0 || from >= blocks.len() {
        None
    } else if blocks[from].status_a.word_bits is Some {
        blocks[from].status_a.word_bits
    } else if blocks[from].status_b.word_bits is Some {
        blocks[from].status_b.word_bits
    } else {
        stated_word_bits(blocks, from + 1)
    }
}

/// The word length to decode with. Without a stated one, it is 24 bits.
pub open spec fn resolved_word_bits(word_bits: WordBits, blocks: Seq<Block>) -> u32 {
    match word_bits {
        WordBits::Bits(bits) => bits,
        WordBits::Auto => match stated_word_bits(blocks, 0) {
            Some(bits) => bits,
            None => 24,
        },
    }
}

impl WordBits {
    /// The word length to decode with.
    pub fn resolve(self, blocks: &Vec<Block>) -> (bits: u32)
        ensures
            bits == resolved_word_bits(self, blocks@),
    {
        match self {
            WordBits::Bits(bits) => bits,
            WordBits::Auto => {
                let mut i: usize = 0;
                while i < blocks.len()
                    invariant
                        self == WordBits::Auto,
                        i <= blocks.len(),
                        stated_word_bits(blocks@, 0) == stated_word_bits(blocks@, i as int),
                    decreases blocks.len() - i,
                {
                    if let Some(bits) = blocks[i].status_a.word_bits {
                        return bits;
                    }
                    if let Some(bits) = blocks[i].status_b.word_bits {
                        return bits;
                    }
                    i += 1;
                }
                24
            },
        }
    }
}

/// An item that lasts as long as a subframe.
pub open spec fn subframe_item(subframe: SubframeView, value: ValueView) -> ItemView {
    ItemView { start: subframe.start, end: subframe.end, value }
}

/// The samples of one channel in the first `n` subframes.
pub open spec fn sample_items(
    subframes: Seq<SubframeView>,
    n: nat,
    channel: u8,
    word_bits: u32,
    signed: bool,
) -> Seq<ItemView>
    decreases n,
{
    if n == 0 {
        Seq::empty()
    } else {
        let rest = sample_items(subframes, (n - 1) as nat, channel, word_bits, signed);
        let last = subframes[n - 1];
        if last.channel == Some(channel) {
            rest.push(
                subframe_item(
                    last,
                    ValueView::Integer {
                        value: sample_of(last.bits, word_bits, signed),
                        bits: word_bits as nat,
                    },
                ),
            )
        } else {
            rest
        }
    }
}

/// One bit of every subframe.
pub open spec fn bit_items(subframes: Seq<SubframeView>, index: int) -> Seq<ItemView> {
    Seq::new(
        subframes.len(),
        |i: int|
            subframe_item(
                subframes[i],
                ValueView::Integer { value: blocks::bit_value(subframes[i].bits[index]), bits: 1 },
            ),
    )
}

/// The header of every subframe.
pub open spec fn header_items(subframes: Seq<SubframeView>) -> Seq<ItemView> {
    Seq::new(
        subframes.len(),
        |i: int|
            subframe_item(
                subframes[i],
                ValueView::Text(framing::header_label(subframes[i].header)),
            ),
    )
}

/// What the blocks say. With an automatic word length and no channel status the
/// length is a guess, which is shown in place of a status.
pub open spec fn status_items(
    word_bits: WordBits,
    subframes: Seq<SubframeView>,
    found: Seq<Block>,
) -> Seq<ItemView> {
    if word_bits == WordBits::Auto && found.len() == 0 && subframes.len() > 0 {
        seq![
            ItemView {
                start: subframes[0].start,
                end: subframes.last().end,
                value: ValueView::Text("word length: 24-bit assumed (no channel status)"@),
            },
        ]
    } else {
        Seq::new(
            found.len(),
            |i: int|
                ItemView {
                    start: found[i].start,
                    end: found[i].end,
                    value: ValueView::Text(blocks::block_words(found[i])),
                },
        )
    }
}

/// The number of ones.
pub open spec fn ones(bits: Seq<bool>) -> nat
    decreases bits.len(),
{
    if bits.len() == 0 {
        0
    } else {
        ones(bits.drop_last()) + if bits.last() {
            1nat
        } else {
            0nat
        }
    }
}

/// The faults of one subframe: a header that is no preamble, and a parity over
/// slots 4-31 that is not even.
pub open spec fn subframe_faults(subframe: SubframeView) -> Seq<ItemView> {
    let header = if subframe.header == HeaderKind::Unknown {
        seq![subframe_item(subframe, ValueView::Text("Unknown Preamble"@))]
    } else {
        Seq::empty()
    };
    if ones(subframe.bits) % 2 == 1 {
        header.push(subframe_item(subframe, ValueView::Text("parity"@)))
    } else {
        header
    }
}

/// The faults of the first `n` subframes.
pub open spec fn faults(subframes: Seq<SubframeView>, n: nat) -> Seq<ItemView>
    decreases n,
{
    if n == 0 {
        Seq::empty()
    } else {
        faults(subframes, (n - 1) as nat) + subframe_faults(subframes[n - 1])
    }
}

/// `items` with `item` behind all those that do not start later.
pub open spec fn inserted(items: Seq<ItemView>, item: ItemView) -> Seq<ItemView>
    decreases items.len(),
{
    if items.len() == 0 || items.last().start <= item.start {
        items.push(item)
    } else {
        inserted(items.drop_last(), item).push(items.last())
    }
}

/// The items in the order of their start. Those that start together keep their
/// order.
pub open spec fn sorted(items: Seq<ItemView>) -> Seq<ItemView>
    decreases items.len(),
{
    if items.len() == 0 {
        Seq::empty()
    } else {
        inserted(sorted(items.drop_last()), items.last())
    }
}

/// Whether the items are in the order of their start.
pub open spec fn in_start_order(items: Seq<ItemView>) -> bool {
    forall|i: int, j: int|
        0 <= i <= j < items.len() ==> (#[trigger] items[i]).start <= (#[trigger] items[j]).start
}

proof fn inserted_in_order(items: Seq<ItemView>, item: ItemView)
    requires
        in_start_order(items),
    ensures
        in_start_order(inserted(items, item)),
        inserted(items, item).to_multiset() == items.to_multiset().insert(item),
        items.len() > 0 ==> inserted(items, item).last().start >= items.last().start,
        inserted(items, item).last().start >= item.start,
        inserted(items, item).last() == item || (items.len() > 0 && inserted(items, item).last()
            == items.last()),
    decreases items.len(),
{
    broadcast use vstd::seq_lib::group_to_multiset_ensures;

    let after = inserted(items, item);
    if items.len() == 0 || items.last().start <= item.start {
        assert forall|i: int, j: int| 0 <= i <= j < after.len() implies (#[trigger] after[i]).start
            <= (#[trigger] after[j]).start by {
            if j < items.len() {
                assert(items[i].start <= items[j].start);
            } else if i < items.len() {
                assert(items[i].start <= items[items.len() - 1].start);
            }
        }
    } else {
        let front = items.drop_last();
        assert(in_start_order(front)) by {
            assert forall|i: int, j: int| 0 <= i <= j < front.len() implies (
            #[trigger] front[i]).start <= (#[trigger] front[j]).start by {
                assert(items[i].start <= items[j].start);
            }
        }
        inserted_in_order(front, item);
        let part = inserted(front, item);
        assert(part.last().start <= items.last().start) by {
            if front.len() > 0 {
                assert(items[front.len() - 1].start <= items[items.len() - 1].start);
            }
        }
        assert(part.len() > 0);
        assert forall|i: int, j: int| 0 <= i <= j < after.len() implies (#[trigger] after[i]).start
            <= (#[trigger] after[j]).start by {
            if j < part.len() {
                assert(part[i].start <= part[j].start);
            } else if i < part.len() {
                assert(part[i].start <= part[part.len() - 1].start);
            }
        }
        assert(items =~= front.push(items.last()));
        assert(after.to_multiset() =~= items.to_multiset().insert(item));
    }
}

/// Sorting puts the items in the order of their start, and neither adds nor
/// loses one.
pub proof fn sorted_in_order(items: Seq<ItemView>)
    ensures
        in_start_order(sorted(items)),
        sorted(items).to_multiset() == items.to_multiset(),
    decreases items.len(),
{
    broadcast use vstd::seq_lib::group_to_multiset_ensures;

    if items.len() > 0 {
        sorted_in_order(items.drop_last());
        inserted_in_order(sorted(items.drop_last()), items.last());
        assert(items =~= items.drop_last().push(items.last()));
    }
}

proof fn inserted_at(items: Seq<ItemView>, item: ItemView, k: int)
    requires
        0 <= k <= items.len(),
        k > 0 ==> items[k - 1].start <= item.start,
        forall|i: int| k <= i < items.len() ==> (#[trigger] items[i]).start > item.start,
    ensures
        inserted(items, item) == items.insert(k, item),
    decreases items.len(),
{
    if k < items.len() {
        assert(items.last() == items[items.len() - 1]);
        inserted_at(items.drop_last(), item, k);
        assert(items.drop_last().insert(k, item).push(items.last()) =~= items.insert(k, item));
    } else {
        assert(items.push(item) =~= items.insert(k, item));
    }
}

fn insert_by_start(items: &mut Vec<DecodedItem>, item: DecodedItem)
    ensures
        value::item_views(final(items)@) == inserted(value::item_views(old(items)@), item@),
{
    let ghost before = value::item_views(items@);
    let mut k: usize = items.len();
    while k > 0 && items[k - 1].start > item.start
        invariant
            k <= items.len(),
            forall|i: int| k <= i < items.len() ==> (#[trigger] items@[i]).start > item.start,
        decreases k,
    {
        k -= 1;
    }
    proof {
        assert forall|i: int| k <= i < before.len() implies (#[trigger] before[i]).start
            > item.start by {
            assert(before[i].start == items@[i].start);
        }
        inserted_at(before, item@, k as int);
    }
    items.insert(k, item);
    assert(value::item_views(items@) =~= before.insert(k as int, item@));
}

/// The range of the samples.
pub open spec fn sample_range(word_bits: u32, signed: bool) -> Option<NumericRange> {
    Some(NumericRange { bits: word_bits, signed })
}

/// The audio rows.
pub open spec fn audio_rows(
    params: ParamsView,
    subframes: Seq<SubframeView>,
    word_bits: u32,
) -> Seq<RowView> {
    let range = sample_range(word_bits, params.signed);
    let a = sample_items(subframes, subframes.len(), 0, word_bits, params.signed);
    let b = sample_items(subframes, subframes.len(), 1, word_bits, params.signed);
    seq![
        RowView { name: "A"@, numeric_range: range, items: a },
        RowView { name: "B"@, numeric_range: range, items: b },
    ]
}

/// A row that is shown or not.
pub open spec fn shown_row(show: bool, name: Seq<char>, items: Seq<ItemView>) -> Seq<RowView> {
    if show {
        seq![RowView { name, numeric_range: None, items }]
    } else {
        Seq::empty()
    }
}

/// All rows of a stream. Errors are sorted, since a block-count error is only
/// found when the next block begins.
pub open spec fn rows_of(params: ParamsView, subframes: Seq<SubframeView>) -> Seq<RowView> {
    let found = blocks::blocks_of(subframes, subframes.len() as int);
    let word_bits = resolved_word_bits(params.word_bits, found);
    let errors = sorted(faults(subframes, subframes.len()) + blocks::block_errors(subframes));
    audio_rows(params, subframes, word_bits) + shown_row(
        params.show_validity,
        "validity"@,
        bit_items(subframes, 24),
    ) + shown_row(params.show_user, "user"@, bit_items(subframes, 25)) + shown_row(
        params.show_status,
        "status"@,
        status_items(params.word_bits, subframes, found),
    ) + shown_row(params.show_parity_errors, "errors"@, errors) + shown_row(
        params.show_preambles,
        "preamble"@,
        header_items(subframes),
    )
}

fn sample_row(
    name: &str,
    subframes: &Vec<Subframe>,
    channel: u8,
    word_bits: u32,
    signed: bool,
) -> (row: DecodedRow)
    requires
        signed ==> word_bits > 0,
    ensures
        row@ == (RowView {
            name: name@,
            numeric_range: sample_range(word_bits, signed),
            items: sample_items(
                framing::subframe_views(subframes@),
                subframes@.len(),
                channel,
                word_bits,
                signed,
            ),
        }),
{
    let ghost all = framing::subframe_views(subframes@);
    let mut items: Vec<DecodedItem> = Vec::new();
    let mut i: usize = 0;
    assert(value::item_views(items@) =~= Seq::<ItemView>::empty());
    while i < subframes.len()
        invariant
            signed ==> word_bits > 0,
            all == framing::subframe_views(subframes@),
            i <= subframes.len(),
            value::item_views(items@) == sample_items(all, i as nat, channel, word_bits, signed),
        decreases subframes.len() - i,
    {
        let subframe = &subframes[i];
        let ghost before = value::item_views(items@);
        assert(all[i as int] == subframe@);
        if let Some(own) = subframe.channel {
            if own == channel {
                let word = extract_audio(&subframe.bits, word_bits);
                let sample = if signed {
                    sign_extend(word, word_bits)
                } else {
                    word
                };
                let item = DecodedItem {
                    start: subframe.start,
                    end: subframe.end,
                    value: DecodedValue::integer(sample, word_bits),
                };
                items.push(item);
                assert(value::item_views(items@) =~= before.push(item@));
            }
        }
        i += 1;
    }
    DecodedRow {
        name: name.to_owned(),
        numeric_range: Some(NumericRange { bits: word_bits, signed }),
        items,
    }
}

fn bit_row(name: &str, subframes: &Vec<Subframe>, index: usize) -> (row: DecodedRow)
    requires
        index < 28,
    ensures
        row@ == (RowView {
            name: name@,
            numeric_range: None,
            items: bit_items(framing::subframe_views(subframes@), index as int),
        }),
{
    let ghost all = bit_items(framing::subframe_views(subframes@), index as int);
    let mut items: Vec<DecodedItem> = Vec::new();
    let mut i: usize = 0;
    while i < subframes.len()
        invariant
            index < 28,
            all == bit_items(framing::subframe_views(subframes@), index as int),
            i <= subframes.len(),
            value::item_views(items@) =~= all.take(i as int),
        decreases subframes.len() - i,
    {
        let subframe = &subframes[i];
        let ghost before = value::item_views(items@);
        let bit: i64 = if subframe.bits[index] {
            1
        } else {
            0
        };
        let item = DecodedItem {
            start: subframe.start,
            end: subframe.end,
            value: DecodedValue::integer(bit, 1),
        };
        items.push(item);
        proof {
            assert(all[i as int] == item@);
            assert(value::item_views(items@) =~= before.push(item@));
        }
        i += 1;
    }
    assert(all.take(i as int) =~= all);
    DecodedRow { name: name.to_owned(), numeric_range: None, items }
}

fn header_row(subframes: &Vec<Subframe>) -> (row: DecodedRow)
    ensures
        row@ == (RowView {
            name: "preamble"@,
            numeric_range: None,
            items: header_items(framing::subframe_views(subframes@)),
        }),
{
    let ghost all = header_items(framing::subframe_views(subframes@));
    let mut items: Vec<DecodedItem> = Vec::new();
    let mut i: usize = 0;
    while i < subframes.len()
        invariant
            all == header_items(framing::subframe_views(subframes@)),
            i <= subframes.len(),
            value::item_views(items@) =~= all.take(i as int),
        decreases subframes.len() - i,
    {
        let subframe = &subframes[i];
        let ghost before = value::item_views(items@);
        let item = DecodedItem {
            start: subframe.start,
            end: subframe.end,
            value: DecodedValue::text(subframe.header.label()),
        };
        let ghost view = item@;
        items.push(item);
        proof {
            assert(all[i as int] == view);
            assert(value::item_views(items@) =~= before.push(view));
        }
        i += 1;
    }
    assert(all.take(i as int) =~= all);
    DecodedRow { name: "preamble".to_owned(), numeric_range: None, items }
}

fn status_row(word_bits: WordBits, subframes: &Vec<Subframe>, found: &Vec<Block>) -> (row:
    DecodedRow)
    ensures
        row@ == (RowView {
            name: "status"@,
            numeric_range: None,
            items: status_items(word_bits, framing::subframe_views(subframes@), found@),
        }),
{
    let ghost all = status_items(word_bits, framing::subframe_views(subframes@), found@);
    let mut items: Vec<DecodedItem> = Vec::new();
    if word_bits == WordBits::Auto && found.len() == 0 && subframes.len() > 0 {
        items.push(
            DecodedItem {
                start: subframes[0].start,
                end: subframes[subframes.len() - 1].end,
                value: DecodedValue::text("word length: 24-bit assumed (no channel status)"),
            },
        );
        assert(value::item_views(items@) =~= all);
    } else {
        let mut i: usize = 0;
        while i < found.len()
            invariant
                all == status_items(word_bits, framing::subframe_views(subframes@), found@),
                !(word_bits == WordBits::Auto && found.len() == 0 && subframes.len() > 0),
                i <= found.len(),
                value::item_views(items@) =~= all.take(i as int),
            decreases found.len() - i,
        {
            let ghost before = value::item_views(items@);
            let words = blocks::block_text(&found[i]);
            let item = DecodedItem {
                start: found[i].start,
                end: found[i].end,
                value: DecodedValue::Text(words),
            };
            let ghost view = item@;
            items.push(item);
            proof {
                assert(all[i as int] == view);
                assert(value::item_views(items@) =~= before.push(view));
            }
            i += 1;
        }
        assert(all.take(i as int) =~= all);
    }
    DecodedRow { name: "status".to_owned(), numeric_range: None, items }
}

fn is_odd(bits: &[bool; 28]) -> (odd: bool)
    ensures
        odd == (ones(bits@) % 2 == 1),
{
    let mut odd = false;
    let mut i: usize = 0;
    while i < 28
        invariant
            i <= 28,
            odd == (ones(bits@.take(i as int)) % 2 == 1),
        decreases 28 - i,
    {
        assert(bits@.take(i + 1).drop_last() =~= bits@.take(i as int));
        if bits[i] {
            odd = !odd;
        }
        i += 1;
    }
    assert(bits@.take(28) =~= bits@);
    odd
}

proof fn sorted_grows(items: Seq<ItemView>, item: ItemView)
    ensures
        sorted(items.push(item)) == inserted(sorted(items), item),
{
    assert(items.push(item).drop_last() =~= items);
}

fn errors_row(subframes: &Vec<Subframe>, block_errors: Vec<DecodedItem>) -> (row: DecodedRow)
    ensures
        row@ == (RowView {
            name: "errors"@,
            numeric_range: None,
            items: sorted(
                faults(framing::subframe_views(subframes@), subframes@.len()) + value::item_views(
                    block_errors@,
                ),
            ),
        }),
{
    let ghost all = framing::subframe_views(subframes@);
    let mut items: Vec<DecodedItem> = Vec::new();
    let mut i: usize = 0;
    assert(value::item_views(items@) =~= sorted(faults(all, 0)));
    while i < subframes.len()
        invariant
            all == framing::subframe_views(subframes@),
            i <= subframes.len(),
            value::item_views(items@) == sorted(faults(all, i as nat)),
        decreases subframes.len() - i,
    {
        let subframe = &subframes[i];
        assert(all[i as int] == subframe@);
        let ghost found = faults(all, i as nat);
        let ghost mut here = Seq::<ItemView>::empty();
        if subframe.header == HeaderKind::Unknown {
            let item = DecodedItem {
                start: subframe.start,
                end: subframe.end,
                value: DecodedValue::text("Unknown Preamble"),
            };
            proof {
                sorted_grows(found, item@);
                here = here.push(item@);
                assert(here =~= seq![item@]);
                assert(found + here =~= found.push(item@));
            }
            insert_by_start(&mut items, item);
        }
        assert(found + Seq::<ItemView>::empty() =~= found);
        assert(value::item_views(items@) == sorted(found + here));
        if is_odd(&subframe.bits) {
            let item = DecodedItem {
                start: subframe.start,
                end: subframe.end,
                value: DecodedValue::text("parity"),
            };
            proof {
                sorted_grows(found + here, item@);
                assert((found + here).push(item@) =~= found + here.push(item@));
                here = here.push(item@);
            }
            insert_by_start(&mut items, item);
        }
        assert(here =~= subframe_faults(subframe@));
        i += 1;
    }
    let ghost found = faults(all, subframes@.len());
    let ghost more = value::item_views(block_errors@);
    let mut k: usize = 0;
    assert(found + more.take(0) =~= found);
    while k < block_errors.len()
        invariant
            more == value::item_views(block_errors@),
            k <= block_errors.len(),
            value::item_views(items@) == sorted(found + more.take(k as int)),
        decreases block_errors.len() - k,
    {
        proof {
            sorted_grows(found + more.take(k as int), more[k as int]);
            assert((found + more.take(k as int)).push(more[k as int]) =~= found + more.take(k + 1));
        }
        insert_by_start(&mut items, block_errors[k].clone());
        k += 1;
    }
    assert(more.take(k as int) =~= more);
    DecodedRow { name: "errors".to_owned(), numeric_range: None, items }
}

/// The rows shown for the subframes of a stream.
pub fn build_rows(params: &BiphaseAudioParams, subframes: &Vec<Subframe>) -> (data: DecodedData)
    requires
        framing::channels_known(framing::subframe_views(subframes@)),
        params.signed ==> params.word_bits != WordBits::Bits(0),
    ensures
        data@ == rows_of(params@, framing::subframe_views(subframes@)),
{
    let ghost all = framing::subframe_views(subframes@);
    let (found, block_errors) = blocks::collect_blocks(subframes);
    let word_bits = params.word_bits.resolve(&found);
    proof {
        blocks_state_word_bits(all, all.len() as int);
        stated_in_range(found@, 0);
    }
    let mut rows: Vec<DecodedRow> = Vec::new();
    rows.push(sample_row("A", subframes, 0, word_bits, params.signed));
    rows.push(sample_row("B", subframes, 1, word_bits, params.signed));
    assert(value::row_views(rows@) =~= audio_rows(params@, all, word_bits));
    let ghost audio = value::row_views(rows@);
    if params.show_validity {
        rows.push(bit_row("validity", subframes, 24));
    }
    let ghost validity = audio + shown_row(
        params.show_validity,
        "validity"@,
        bit_items(all, 24),
    );
    assert(value::row_views(rows@) =~= validity);
    if params.show_user {
        rows.push(bit_row("user", subframes, 25));
    }
    let ghost user = validity + shown_row(params.show_user, "user"@, bit_items(all, 25));
    assert(value::row_views(rows@) =~= user);
    if params.show_status {
        rows.push(status_row(params.word_bits, subframes, &found));
    }
    let ghost status = user + shown_row(
        params.show_status,
        "status"@,
        status_items(params.word_bits, all, found@),
    );
    assert(value::row_views(rows@) =~= status);
    if params.show_parity_errors {
        rows.push(errors_row(subframes, block_errors));
    }
    let ghost errors = status + shown_row(
        params.show_parity_errors,
        "errors"@,
        sorted(faults(all, all.len()) + blocks::block_errors(all)),
    );
    assert(value::row_views(rows@) =~= errors);
    if params.show_preambles {
        rows.push(header_row(subframes));
    }
    assert(value::row_views(rows@) =~= errors + shown_row(
        params.show_preambles,
        "preamble"@,
        header_items(all),
    ));
    DecodedData { rows }
}

/// Whether every length that the blocks state is one that a subframe can carry.
pub open spec fn lengths_fit(blocks: Seq<Block>) -> bool {
    forall|i: int|
        0 <= i < blocks.len() ==> ((#[trigger] blocks[i]).status_a.word_bits matches Some(bits)
            ==> 16 <= bits <= 24) && (blocks[i].status_b.word_bits matches Some(bits) ==> 16 <= bits
            <= 24)
}

/// The lengths that blocks state are ones that a subframe can carry.
pub proof fn blocks_state_word_bits(subframes: Seq<SubframeView>, n: int)
    ensures
        lengths_fit(blocks::blocks_of(subframes, n)),
    decreases n,
{
    if n > 0 {
        blocks_state_word_bits(subframes, n - 1);
        match blocks::block_begin(subframes, n) {
            Some(from) => {
                channel_status::stated_word_bits_fit(
                    blocks::packed(blocks::status_bits(subframes, from, n, false)),
                );
                channel_status::stated_word_bits_fit(
                    blocks::packed(blocks::status_bits(subframes, from, n, true)),
                );
            },
            None => {},
        }
    }
}

proof fn stated_in_range(blocks: Seq<Block>, from: int)
    requires
        lengths_fit(blocks),
    ensures
        stated_word_bits(blocks, from) matches Some(bits) ==> 16 <= bits <= 24,
    decreases blocks.len() - from,
{
    if 0 <= from < blocks.len() {
        stated_in_range(blocks, from + 1);
    }
}

} // verus!
