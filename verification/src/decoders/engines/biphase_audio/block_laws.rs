//! What holds of the channel-status blocks of a stream.
use vstd::prelude::*;
use crate::decoders::engines::biphase_audio::blocks;
use crate::decoders::engines::biphase_audio::blocks::Block;
use crate::decoders::engines::biphase_audio::channel_status;
use crate::decoders::engines::biphase_audio::framing;
use crate::decoders::engines::biphase_audio::framing::{HeaderKind, Preamble, SubframeView};
use crate::decoders::value::{ItemView, ValueView};

verus! {

/// Whether subframes take turns on the channels from `at` on, A before B, and no
/// preamble Z comes before `at`.
pub open spec fn take_turns(subframes: Seq<SubframeView>, at: int) -> bool {
    &&& 0 <= at <= subframes.len()
    &&& forall|i: int|
        at <= i < subframes.len() ==> (#[trigger] subframes[i]).channel == Some(
            ((i - at) % 2) as u8,
        )
    &&& forall|i: int|
        0 <= i < at ==> (#[trigger] subframes[i]).header != HeaderKind::Standard(Preamble::Z)
}

/// Whether exactly the subframes every 384 from `at` on begin a block.
pub open spec fn in_blocks(subframes: Seq<SubframeView>, at: int) -> bool {
    &&& take_turns(subframes, at)
    &&& forall|i: int|
        at <= i < subframes.len() ==> ((#[trigger] subframes[i]).header == HeaderKind::Standard(
            Preamble::Z,
        ) <==> (i - at) % 384 == 0)
}

/// The channel status that 192 frames from `from` on carry for a channel: frame
/// `f` carries bit `f` in slot 30, which is bit `f % 8` of byte `f / 8`.
pub open spec fn carries_status(
    subframes: Seq<SubframeView>,
    from: int,
    channel: int,
    bytes: Seq<u8>,
) -> bool {
    &&& bytes.len() == 24
    &&& forall|f: int|
        0 <= f < 192 ==> #[trigger] channel_status::status_bit(bytes, f) == subframes[from + 2 * f
            + channel].bits[30 - 4]
}

proof fn turns_give_bits(subframes: Seq<SubframeView>, at: int, from: int, to: int)
    requires
        take_turns(subframes, at),
        at <= from <= to <= subframes.len(),
        (from - at) % 2 == 0,
    ensures
        blocks::status_bits(subframes, from, to, false) == Seq::new(
            ((to - from + 1) / 2) as nat,
            |f: int| subframes[from + 2 * f].bits[26],
        ),
        blocks::status_bits(subframes, from, to, true) == Seq::new(
            ((to - from) / 2) as nat,
            |f: int| subframes[from + 2 * f + 1].bits[26],
        ),
    decreases to - from,
{
    let a = blocks::status_bits(subframes, from, to, false);
    let b = blocks::status_bits(subframes, from, to, true);
    if to > from {
        turns_give_bits(subframes, at, from, to - 1);
        assert(subframes[to - 1].channel == Some(((to - 1 - at) % 2) as u8));
        assert((to - 1 - at) % 2 == (to - 1 - from) % 2);
    }
    assert(a =~= Seq::new(
        ((to - from + 1) / 2) as nat,
        |f: int| subframes[from + 2 * f].bits[26],
    ));
    assert(b =~= Seq::new(
        ((to - from) / 2) as nat,
        |f: int| subframes[from + 2 * f + 1].bits[26],
    ));
}

proof fn block_of_place(subframes: Seq<SubframeView>, at: int, n: int)
    requires
        in_blocks(subframes, at),
        0 <= n <= subframes.len(),
    ensures
        blocks::block_begin(subframes, n) == (if n <= at {
            None
        } else {
            Some(at + 384 * ((n - 1 - at) / 384))
        }),
    decreases n,
{
    if n > 0 {
        block_of_place(subframes, at, n - 1);
        let last = subframes[n - 1];
        if n - 1 >= at {
            assert(last.channel == Some(((n - 1 - at) % 2) as u8));
            assert(last.header == HeaderKind::Standard(Preamble::Z) <==> (n - 1 - at) % 384 == 0);
            if (n - 1 - at) % 384 != 0 {
                assert((n - 2 - at) / 384 == (n - 1 - at) / 384);
            } else {
                assert(384 * ((n - 1 - at) / 384) == n - 1 - at);
            }
        }
    }
}

/// Whether a block was read from the 384 subframes from `from` on.
pub open spec fn is_block_at(block: Block, subframes: Seq<SubframeView>, from: int) -> bool {
    &&& block.start == subframes[from].start
    &&& block.end == subframes[from + 383].end
    &&& exists|bytes: Seq<u8>| #[trigger]
        carries_status(subframes, from, 0, bytes) && block.status_a == channel_status::status_of(
            bytes,
        )
    &&& exists|bytes: Seq<u8>| #[trigger]
        carries_status(subframes, from, 1, bytes) && block.status_b == channel_status::status_of(
            bytes,
        )
}

proof fn block_is_read(subframes: Seq<SubframeView>, at: int, from: int)
    requires
        take_turns(subframes, at),
        at <= from,
        from + 384 <= subframes.len(),
        (from - at) % 2 == 0,
    ensures
        is_block_at(blocks::block_of(subframes, from, from + 384), subframes, from),
        blocks::is_complete(subframes, from, from + 384),
        !blocks::is_complete(subframes, from, from + 383),
{
    turns_give_bits(subframes, at, from, from + 384);
    turns_give_bits(subframes, at, from, from + 383);
    let a = blocks::status_bits(subframes, from, from + 384, false);
    let b = blocks::status_bits(subframes, from, from + 384, true);
    assert(carries_status(subframes, from, 0, blocks::packed(a))) by {
        assert forall|f: int| 0 <= f < 192 implies #[trigger] channel_status::status_bit(
            blocks::packed(a),
            f,
        ) == subframes[from + 2 * f + 0].bits[30 - 4] by {
            blocks::packed_keeps_bits(a, f);
        }
    }
    assert(carries_status(subframes, from, 1, blocks::packed(b))) by {
        assert forall|f: int| 0 <= f < 192 implies #[trigger] channel_status::status_bit(
            blocks::packed(b),
            f,
        ) == subframes[from + 2 * f + 1].bits[30 - 4] by {
            blocks::packed_keeps_bits(b, f);
        }
    }
}

/// Every 192 frames from the first preamble Z on are one block, with the channel
/// status that its frames carry in slot 30. What comes before it, and an
/// unfinished block at the end, give none.
pub proof fn blocks_follow_one_another(subframes: Seq<SubframeView>, at: int, n: int)
    requires
        in_blocks(subframes, at),
        at <= n <= subframes.len(),
    ensures
        blocks::blocks_of(subframes, n).len() == (n - at) / 384,
        forall|j: int|
            0 <= j < (n - at) / 384 ==> is_block_at(
                #[trigger] blocks::blocks_of(subframes, n)[j],
                subframes,
                at + 384 * j,
            ),
    decreases n,
{
    let all = blocks::blocks_of(subframes, n);
    if n == at {
        no_block_before(subframes, at, n);
    } else {
        blocks_follow_one_another(subframes, at, n - 1);
        block_of_place(subframes, at, n);
        let from = at + 384 * ((n - 1 - at) / 384);
        let rest = blocks::blocks_of(subframes, n - 1);
        assert((from - at) % 2 == 0) by {
            assert(384 * ((n - 1 - at) / 384) == 2 * (192 * ((n - 1 - at) / 384)));
        }
        if (n - at) % 384 == 0 {
            assert(from + 384 == n);
            block_is_read(subframes, at, from);
            assert((n - at) / 384 == (n - 1 - at) / 384 + 1);
        } else {
            assert((n - at) / 384 == (n - 1 - at) / 384);
            turns_give_bits(subframes, at, from, n);
            assert(n - from < 384);
        }
    }
}

proof fn no_block_before(subframes: Seq<SubframeView>, at: int, n: int)
    requires
        in_blocks(subframes, at),
        0 <= n <= at,
    ensures
        blocks::blocks_of(subframes, n).len() == 0,
        blocks::count_errors(subframes, n).len() == 0,
    decreases n,
{
    if n > 0 {
        no_block_before(subframes, at, n - 1);
        block_of_place(subframes, at, n);
        block_of_place(subframes, at, n - 1);
    }
}

proof fn no_count_errors(subframes: Seq<SubframeView>, at: int, n: int)
    requires
        in_blocks(subframes, at),
        at <= n <= subframes.len(),
    ensures
        blocks::count_errors(subframes, n).len() == 0,
    decreases n,
{
    if n == at {
        no_block_before(subframes, at, n);
    } else {
        no_count_errors(subframes, at, n - 1);
        block_of_place(subframes, at, n - 1);
        let next = subframes[n - 1];
        if n - 1 > at && next.header == HeaderKind::Standard(Preamble::Z) {
            let from = at + 384 * ((n - 2 - at) / 384);
            assert((n - 1 - at) % 384 == 0);
            assert(from + 384 == n - 1);
            assert((from - at) % 2 == 0) by {
                assert(384 * ((n - 2 - at) / 384) == 2 * (192 * ((n - 2 - at) / 384)));
            }
            turns_give_bits(subframes, at, from, n - 1);
        }
    }
}

/// Whole blocks have no block error. A capture that ends within a block reports
/// it, from its beginning to the end of the last subframe.
pub proof fn unfinished_block_is_reported(subframes: Seq<SubframeView>, at: int)
    requires
        in_blocks(subframes, at),
        at < subframes.len(),
    ensures
        ({
            let n = subframes.len() as int;
            let from = at + 384 * ((n - at) / 384);
            blocks::block_errors(subframes) == (if (n - at) % 384 == 0 {
                Seq::<ItemView>::empty()
            } else {
                seq![
                    ItemView {
                        start: subframes[from].start,
                        end: subframes[n - 1].end,
                        value: ValueView::Text("block count"@),
                    },
                ]
            })
        }),
{
    let n = subframes.len() as int;
    no_count_errors(subframes, at, n);
    block_of_place(subframes, at, n);
    let begin = at + 384 * ((n - 1 - at) / 384);
    assert((begin - at) % 2 == 0) by {
        assert(384 * ((n - 1 - at) / 384) == 2 * (192 * ((n - 1 - at) / 384)));
    }
    turns_give_bits(subframes, at, begin, n);
    assert(subframes[n - 1].channel is Some) by {
        assert(subframes[n - 1].channel == Some(((n - 1 - at) % 2) as u8));
    }
    let found = blocks::count_errors(subframes, n);
    assert(found =~= Seq::<ItemView>::empty());
    if (n - at) % 384 == 0 {
        assert(begin + 384 == n);
    } else {
        assert((n - 1 - at) / 384 == (n - at) / 384);
        assert(n - begin < 384);
        let item = ItemView {
            start: subframes[begin].start,
            end: subframes[n - 1].end,
            value: ValueView::Text("block count"@),
        };
        assert(found.push(item) =~= seq![item]);
    }
}

/// A block that begins at any other time than 192 frames behind the one before
/// it reports that one, at the subframe that it begins with; after 192 frames
/// nothing is reported.
pub proof fn wrong_block_lengths_are_reported(
    subframes: Seq<SubframeView>,
    at: int,
    from: int,
    n: int,
)
    requires
        take_turns(subframes, at),
        at <= from < n - 1 < subframes.len(),
        (from - at) % 2 == 0,
        (n - 1 - from) % 2 == 0,
        blocks::block_begin(subframes, n - 1) == Some(from),
        subframes[n - 1].header == HeaderKind::Standard(Preamble::Z),
    ensures
        blocks::count_errors(subframes, n) == (if n - 1 - from == 384 {
            blocks::count_errors(subframes, n - 1)
        } else {
            blocks::count_errors(subframes, n - 1).push(
                ItemView {
                    start: subframes[n - 1].start,
                    end: subframes[n - 1].end,
                    value: ValueView::Text("block count"@),
                },
            )
        }),
{
    turns_give_bits(subframes, at, from, n - 1);
    assert(subframes[n - 1].channel == Some(((n - 1 - at) % 2) as u8));
}

/// The subframes of a channel, in their order.
pub open spec fn of_channel(subframes: Seq<SubframeView>, channel: u8) -> Seq<SubframeView> {
    subframes.filter(|subframe: SubframeView| subframe.channel == Some(channel))
}

proof fn bits_of_channel(subframes: Seq<SubframeView>, from: int, to: int, channel: u8)
    requires
        framing::channels_known(subframes),
        channel <= 1,
        0 <= from <= to <= subframes.len(),
    ensures
        ({
            let bits = blocks::status_bits(subframes, from, to, channel == 1);
            let part = of_channel(subframes.subrange(from, to), channel);
            &&& bits.len() == part.len()
            &&& forall|k: int| 0 <= k < bits.len() ==> #[trigger] bits[k] == part[k].bits[30 - 4]
        }),
    decreases to - from,
{
    reveal(Seq::filter);
    let range = subframes.subrange(from, to);
    if to > from {
        bits_of_channel(subframes, from, to - 1, channel);
        assert(range.drop_last() =~= subframes.subrange(from, to - 1));
        assert(range.last() == subframes[to - 1]);
    }
}

/// Whichever way the channels come, a block is complete exactly where 192
/// subframes of either channel have come, and the status of a channel is what
/// its own subframes carry in slot 30, in their order.
pub proof fn blocks_are_complete_with_both_channels(
    subframes: Seq<SubframeView>,
    from: int,
    to: int,
)
    requires
        framing::channels_known(subframes),
        0 <= from <= to <= subframes.len(),
    ensures
        ({
            let a = of_channel(subframes.subrange(from, to), 0);
            let b = of_channel(subframes.subrange(from, to), 1);
            let status_a = blocks::status_bits(subframes, from, to, false);
            let status_b = blocks::status_bits(subframes, from, to, true);
            &&& blocks::is_complete(subframes, from, to) <==> a.len() >= 192 && b.len() >= 192
            &&& status_a.len() == a.len() && status_b.len() == b.len()
            &&& forall|k: int|
                0 <= k < a.len() ==> #[trigger] status_a[k] == a[k].bits[30 - 4]
            &&& forall|k: int|
                0 <= k < b.len() ==> #[trigger] status_b[k] == b[k].bits[30 - 4]
        }),
{
    bits_of_channel(subframes, from, to, 0);
    bits_of_channel(subframes, from, to, 1);
}

} // verus!
