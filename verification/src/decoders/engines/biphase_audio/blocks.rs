//! Collecting the channel-status blocks of a stream of subframes.
use vstd::prelude::*;
use crate::decoders::engines::biphase_audio::channel_status;
use crate::decoders::engines::biphase_audio::channel_status::ChannelStatus;
use crate::decoders::engines::biphase_audio::framing;
use crate::decoders::engines::biphase_audio::framing::{HeaderKind, Preamble, Subframe, SubframeView};
use crate::decoders::value;
use crate::decoders::value::{DecodedItem, DecodedValue, ItemView, ValueView};

verus! {

/// A complete 192-frame channel-status block.
#[derive(Debug, Clone, Copy)]
pub struct Block {
    pub start: u64,
    pub end: u64,
    pub status_a: ChannelStatus,
    pub status_b: ChannelStatus,
}

/// What is shown for a block: the status of its channels, once if they agree.
pub open spec fn block_words(block: Block) -> Seq<char> {
    let a = channel_status::summary_text(block.status_a);
    let b = channel_status::summary_text(block.status_b);
    if a == b {
        a
    } else {
        "A: "@ + a + " / B: "@ + b
    }
}

/// What is shown for a block.
pub fn block_text(block: &Block) -> (words: String)
    ensures
        words@ == block_words(*block),
{
    let a = block.status_a.summary();
    let b = block.status_b.summary();
    if a == b {
        a
    } else {
        let mut words = "A: ".to_owned();
        words.append(a.as_str());
        words.append(" / B: ");
        words.append(b.as_str());
        words
    }
}

/// Whether a subframe begins a block.
pub open spec fn begins_block(subframe: SubframeView) -> bool {
    subframe.channel is Some && subframe.header == HeaderKind::Standard(Preamble::Z)
}

/// Whether a subframe is on channel A or, with `second`, on channel B.
pub open spec fn on_channel(subframe: SubframeView, second: bool) -> bool {
    match subframe.channel {
        Some(channel) => (channel != 0) == second,
        None => false,
    }
}

/// The place of the latest subframe, among the first `n`, that begins a block.
pub open spec fn block_begin(subframes: Seq<SubframeView>, n: int) -> Option<int>
    decreases n,
{
    if n <= 0 {
        None
    } else if begins_block(subframes[n - 1]) {
        Some(n - 1)
    } else {
        block_begin(subframes, n - 1)
    }
}

/// The channel-status bits (slot 30) of one channel, in the subframes from
/// `from` up to `to`.
pub open spec fn status_bits(
    subframes: Seq<SubframeView>,
    from: int,
    to: int,
    second: bool,
) -> Seq<bool>
    decreases to - from,
{
    if to <= from {
        Seq::empty()
    } else {
        let rest = status_bits(subframes, from, to - 1, second);
        if on_channel(subframes[to - 1], second) {
            rest.push(subframes[to - 1].bits[26])
        } else {
            rest
        }
    }
}

/// Whether the subframes from `from` up to `to` hold all 192 status bits of
/// both channels.
pub open spec fn is_complete(subframes: Seq<SubframeView>, from: int, to: int) -> bool {
    status_bits(subframes, from, to, false).len() >= 192 && status_bits(
        subframes,
        from,
        to,
        true,
    ).len() >= 192
}

/// The value of a bit.
pub open spec fn bit_value(bit: bool) -> int {
    if bit {
        1
    } else {
        0
    }
}

/// The byte of eight bits, with the least significant one first.
pub open spec fn packed_byte(bits: Seq<bool>, from: int) -> u8 {
    (bit_value(bits[from]) + 2 * bit_value(bits[from + 1]) + 4 * bit_value(bits[from + 2]) + 8
        * bit_value(bits[from + 3]) + 16 * bit_value(bits[from + 4]) + 32 * bit_value(
        bits[from + 5],
    ) + 64 * bit_value(bits[from + 6]) + 128 * bit_value(bits[from + 7])) as u8
}

/// The 24 bytes of the first 192 bits. The first bit is byte 0 bit 0.
pub open spec fn packed(bits: Seq<bool>) -> Seq<u8> {
    Seq::new(24, |k: int| packed_byte(bits, 8 * k))
}

proof fn byte_has_bits(
    b0: bool,
    b1: bool,
    b2: bool,
    b3: bool,
    b4: bool,
    b5: bool,
    b6: bool,
    b7: bool,
    byte: u8,
)
    by (bit_vector)
    requires
        byte == (if b0 {
            1u8
        } else {
            0u8
        }) + (if b1 {
            2u8
        } else {
            0u8
        }) + (if b2 {
            4u8
        } else {
            0u8
        }) + (if b3 {
            8u8
        } else {
            0u8
        }) + (if b4 {
            16u8
        } else {
            0u8
        }) + (if b5 {
            32u8
        } else {
            0u8
        }) + (if b6 {
            64u8
        } else {
            0u8
        }) + (if b7 {
            128u8
        } else {
            0u8
        }),
    ensures
        channel_status::has_bit(byte, 0) == b0,
        channel_status::has_bit(byte, 1) == b1,
        channel_status::has_bit(byte, 2) == b2,
        channel_status::has_bit(byte, 3) == b3,
        channel_status::has_bit(byte, 4) == b4,
        channel_status::has_bit(byte, 5) == b5,
        channel_status::has_bit(byte, 6) == b6,
        channel_status::has_bit(byte, 7) == b7,
{
}

/// The bytes hold the bits that were received: status bit `n` is bit `n` of
/// the channel status.
pub proof fn packed_keeps_bits(bits: Seq<bool>, n: int)
    requires
        bits.len() >= 192,
        0 <= n < 192,
    ensures
        channel_status::status_bit(packed(bits), n) == bits[n],
{
    let from = 8 * (n / 8);
    byte_has_bits(
        bits[from],
        bits[from + 1],
        bits[from + 2],
        bits[from + 3],
        bits[from + 4],
        bits[from + 5],
        bits[from + 6],
        bits[from + 7],
        packed_byte(bits, from),
    );
    assert(packed(bits)[n / 8] == packed_byte(bits, from));
}

/// The block that the subframes from `from` up to `to` complete.
pub open spec fn block_of(subframes: Seq<SubframeView>, from: int, to: int) -> Block {
    Block {
        start: subframes[from].start,
        end: subframes[to - 1].end,
        status_a: channel_status::status_of(packed(status_bits(subframes, from, to, false))),
        status_b: channel_status::status_of(packed(status_bits(subframes, from, to, true))),
    }
}

/// The blocks that are complete within the first `n` subframes. A block is
/// there as soon as both channels have all their status bits.
pub open spec fn blocks_of(subframes: Seq<SubframeView>, n: int) -> Seq<Block>
    decreases n,
{
    if n <= 0 {
        Seq::empty()
    } else {
        let rest = blocks_of(subframes, n - 1);
        match block_begin(subframes, n) {
            Some(from) => if is_complete(subframes, from, n) && !is_complete(
                subframes,
                from,
                n - 1,
            ) {
                rest.push(block_of(subframes, from, n))
            } else {
                rest
            },
            None => rest,
        }
    }
}

/// The error for a block without the right number of frames.
pub open spec fn block_count_error(start: u64, end: u64) -> ItemView {
    ItemView { start, end, value: ValueView::Text("block count"@) }
}

/// The errors found where, among the first `n` subframes, a new block begins:
/// the one before it was not complete, or had more than 192 frames.
pub open spec fn count_errors(subframes: Seq<SubframeView>, n: int) -> Seq<ItemView>
    decreases n,
{
    if n <= 0 {
        Seq::empty()
    } else {
        let rest = count_errors(subframes, n - 1);
        let next = subframes[n - 1];
        match block_begin(subframes, n - 1) {
            Some(from) => if begins_block(next) && !(is_complete(subframes, from, n - 1)
                && status_bits(subframes, from, n - 1, false).len() == 192) {
                rest.push(block_count_error(next.start, next.end))
            } else {
                rest
            },
            None => rest,
        }
    }
}

/// Where the last of the first `n` subframes with a channel ends, or `default`
/// if there is none.
pub open spec fn last_end(subframes: Seq<SubframeView>, n: int, default: u64) -> u64
    decreases n,
{
    if n <= 0 {
        default
    } else if subframes[n - 1].channel is Some {
        subframes[n - 1].end
    } else {
        last_end(subframes, n - 1, default)
    }
}

/// All block-count errors. A capture can end in the middle of a block, so no
/// further block begins that would report it; it is reported at the end.
pub open spec fn block_errors(subframes: Seq<SubframeView>) -> Seq<ItemView> {
    let found = count_errors(subframes, subframes.len() as int);
    match block_begin(subframes, subframes.len() as int) {
        Some(from) => if is_complete(subframes, from, subframes.len() as int) {
            found
        } else {
            let start = subframes[from].start;
            found.push(
                block_count_error(start, last_end(subframes, subframes.len() as int, start)),
            )
        },
        None => found,
    }
}

fn pack(bits: &Vec<bool>) -> (bytes: [u8; 24])
    requires
        bits.len() >= 192,
    ensures
        bytes@ == packed(bits@),
{
    let mut bytes = [0u8; 24];
    let mut k: usize = 0;
    while k < 24
        invariant
            k <= 24,
            bits.len() >= 192,
            forall|j: int| 0 <= j < k ==> #[trigger] bytes@[j] == packed_byte(bits@, 8 * j),
        decreases 24 - k,
    {
        let mut byte: u8 = 0;
        if bits[8 * k] {
            byte += 1;
        }
        if bits[8 * k + 1] {
            byte += 2;
        }
        if bits[8 * k + 2] {
            byte += 4;
        }
        if bits[8 * k + 3] {
            byte += 8;
        }
        if bits[8 * k + 4] {
            byte += 16;
        }
        if bits[8 * k + 5] {
            byte += 32;
        }
        if bits[8 * k + 6] {
            byte += 64;
        }
        if bits[8 * k + 7] {
            byte += 128;
        }
        assert(byte == packed_byte(bits@, 8 * k as int));
        bytes[k] = byte;
        k += 1;
    }
    assert(bytes@ =~= packed(bits@));
    bytes
}

proof fn packed_by_prefix(a: Seq<bool>, b: Seq<bool>)
    requires
        a.len() >= 192,
        b.len() >= 192,
        forall|k: int| 0 <= k < 192 ==> a[k] == b[k],
    ensures
        packed(a) == packed(b),
{
    assert forall|k: int| 0 <= k < 24 implies packed(a)[k] == packed(b)[k] by {}
    assert(packed(a) =~= packed(b));
}

/// Whether `kept` are the first bits of `bits`, up to 192 of them.
spec fn keeps(kept: Seq<bool>, bits: Seq<bool>) -> bool {
    &&& kept.len() == (if bits.len() < 192 {
        bits.len()
    } else {
        192
    })
    &&& forall|k: int| 0 <= k < kept.len() ==> kept[k] == bits[k]
}

fn end_of_last(subframes: &Vec<Subframe>, default: u64) -> (end: u64)
    ensures
        end == last_end(
            framing::subframe_views(subframes@),
            subframes@.len() as int,
            default,
        ),
{
    let ghost all = framing::subframe_views(subframes@);
    let mut i: usize = subframes.len();
    while i > 0
        invariant
            all == framing::subframe_views(subframes@),
            i <= subframes.len(),
            last_end(all, subframes@.len() as int, default) == last_end(all, i as int, default),
        decreases i,
    {
        i -= 1;
        if subframes[i].channel.is_some() {
            return subframes[i].end;
        }
    }
    default
}

/// Accumulate the per-channel channel-status bits and return complete blocks
/// plus block-count errors. Bits are stored LSB-first within each byte, and
/// the first bit after a `Z` preamble is byte 0 bit 0.
pub fn collect_blocks(subframes: &Vec<Subframe>) -> (result: (Vec<Block>, Vec<DecodedItem>))
    ensures
        result.0@ == blocks_of(framing::subframe_views(subframes@), subframes@.len() as int),
        value::item_views(result.1@) == block_errors(framing::subframe_views(subframes@)),
{
    let ghost all = framing::subframe_views(subframes@);
    let mut blocks: Vec<Block> = Vec::new();
    let mut errors: Vec<DecodedItem> = Vec::new();
    let mut bits_a: Vec<bool> = Vec::new();
    let mut bits_b: Vec<bool> = Vec::new();
    let mut frames: usize = 0;
    let mut start: u64 = 0;
    let mut in_block = false;
    let mut emitted = false;
    let mut i: usize = 0;
    let ghost mut from: int = 0;
    assert(value::item_views(errors@) =~= count_errors(all, 0));
    while i < subframes.len()
        invariant
            all == framing::subframe_views(subframes@),
            i <= subframes.len(),
            blocks@ == blocks_of(all, i as int),
            value::item_views(errors@) == count_errors(all, i as int),
            block_begin(all, i as int) == (if in_block {
                Some(from)
            } else {
                None
            }),
            in_block ==> {
                &&& 0 <= from < i
                &&& start == all[from].start
                &&& keeps(bits_a@, status_bits(all, from, i as int, false))
                &&& keeps(bits_b@, status_bits(all, from, i as int, true))
                &&& frames == status_bits(all, from, i as int, false).len()
                &&& frames <= i
                &&& emitted == is_complete(all, from, i as int)
            },
        decreases subframes.len() - i,
    {
        let subframe = &subframes[i];
        let ghost next = all[i as int];
        assert(next == subframe@);
        if let Some(channel) = subframe.channel {
            if subframe.header == HeaderKind::Standard(Preamble::Z) {
                if in_block && (!emitted || frames != 192) {
                    let ghost before = value::item_views(errors@);
                    errors.push(
                        DecodedItem {
                            start: subframe.start,
                            end: subframe.end,
                            value: DecodedValue::text("block count"),
                        },
                    );
                    assert(value::item_views(errors@) =~= before.push(
                        block_count_error(next.start, next.end),
                    ));
                }
                bits_a = Vec::new();
                bits_b = Vec::new();
                frames = 0;
                start = subframe.start;
                in_block = true;
                emitted = false;
                proof {
                    from = i as int;
                }
            }
            assert(value::item_views(errors@) == count_errors(all, i + 1));
            assert(in_block ==> block_begin(all, i + 1) == Some(from));
            if in_block {
                let ghost a = status_bits(all, from, i as int, false);
                let ghost b = status_bits(all, from, i as int, true);
                assert(keeps(bits_a@, a) && keeps(bits_b@, b));
                if channel == 0 {
                    frames += 1;
                    if bits_a.len() < 192 {
                        bits_a.push(subframe.bits[26]);
                    }
                } else if bits_b.len() < 192 {
                    bits_b.push(subframe.bits[26]);
                }
                assert(keeps(bits_a@, status_bits(all, from, i + 1, false)));
                assert(keeps(bits_b@, status_bits(all, from, i + 1, true)));
                if !emitted && bits_a.len() == 192 && bits_b.len() == 192 {
                    proof {
                        packed_by_prefix(bits_a@, status_bits(all, from, i + 1, false));
                        packed_by_prefix(bits_b@, status_bits(all, from, i + 1, true));
                    }
                    blocks.push(
                        Block {
                            start,
                            end: subframe.end,
                            status_a: channel_status::parse_channel_status(&pack(&bits_a)),
                            status_b: channel_status::parse_channel_status(&pack(&bits_b)),
                        },
                    );
                    emitted = true;
                }
            }
        }
        i += 1;
    }
    if in_block && !emitted {
        let end = end_of_last(subframes, start);
        let ghost before = value::item_views(errors@);
        errors.push(DecodedItem { start, end, value: DecodedValue::text("block count") });
        assert(value::item_views(errors@) =~= before.push(block_count_error(start, end)));
    }
    (blocks, errors)
}

} // verus!
