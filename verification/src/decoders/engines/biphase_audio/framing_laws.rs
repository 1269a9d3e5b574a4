//! What holds of finding the subframes of a stream.
use vstd::prelude::*;
use crate::decoders::engines::biphase_audio::framing;
use crate::decoders::engines::biphase_audio::framing::{HeaderKind, Preamble, SubframeView};
use crate::decoders::engines::biphase_audio::stream_laws;
use crate::decoders::engines::biphase_audio::stream_laws::Sent;

verus! {

/// Whether the half-cells from `at` on carry a stream, in either polarity.
pub open spec fn carried_from(
    cells: Seq<(u64, bool)>,
    at: int,
    stream: Seq<Sent>,
    inverted: bool,
) -> bool {
    &&& 0 <= at
    &&& at + 64 * stream.len() <= cells.len()
    &&& forall|i: int|
        at <= i < at + 64 * stream.len() ==> (#[trigger] cells[i]).1 == (
        stream_laws::stream_levels(stream)[i - at] != inverted)
}

/// The subframes of a stream whose half-cells begin at `at`.
pub open spec fn subframes_behind(
    cells: Seq<(u64, bool)>,
    at: int,
    stream: Seq<Sent>,
    half_period: Option<u64>,
) -> Seq<SubframeView> {
    Seq::new(
        stream.len(),
        |k: int|
            SubframeView {
                header: HeaderKind::Standard(stream[k].preamble),
                channel: Some(
                    if stream[k].preamble == Preamble::Y {
                        1u8
                    } else {
                        0u8
                    },
                ),
                bits: stream[k].bits,
                start: cells[at + 64 * k].0,
                end: framing::end_at(cells, at + 64 * k, half_period),
            },
    )
}

proof fn subframe_is_there(
    cells: Seq<(u64, bool)>,
    at: int,
    stream: Seq<Sent>,
    inverted: bool,
    k: int,
)
    requires
        stream_laws::well_formed(stream),
        carried_from(cells, at, stream, inverted),
        0 <= k < stream.len(),
    ensures
        framing::preamble_at(cells, at + 64 * k) == Some(stream[k].preamble),
        framing::slots_at(cells, at + 64 * k) == stream[k].bits,
{
    let index = at + 64 * k;
    let sent = stream[k];
    let level = stream_laws::level_before(stream, k as nat) != inverted;
    let levels = stream_laws::stream_levels(stream);
    assert forall|r: int| 0 <= r < 8 implies (#[trigger] cells[index + r]).1 == (framing::pattern(
        sent.preamble,
    )[r] != level) by {
        stream_laws::levels_at(stream, k, r);
        assert(cells[index + r].1 == (levels[index + r - at] != inverted));
    }
    assert(framing::sends(cells, index, sent.preamble, level));
    assert(framing::has_preamble(cells, index, sent.preamble));
    let other = framing::preamble_at(cells, index);
    assert(other is Some);
    framing::preambles_are_distinct(cells, index, other.unwrap(), sent.preamble);
    assert forall|j: int| 0 <= j < 28 implies (#[trigger] framing::slots_at(
        cells,
        index,
    )[j]) == sent.bits[j] by {
        stream_laws::levels_at(stream, k, 8 + 2 * j);
        stream_laws::levels_at(stream, k, 9 + 2 * j);
        assert(cells[index + 8 + 2 * j].1 == (levels[64 * k + (8 + 2 * j)] != inverted));
        assert(cells[index + 9 + 2 * j].1 == (levels[64 * k + (9 + 2 * j)] != inverted));
        assert((8 + 2 * j - 8) / 2 == j);
        assert((9 + 2 * j - 8) / 2 == j);
        assert((8 + 2 * j) % 2 == 0 && (9 + 2 * j) % 2 == 1);
    }
    assert(framing::slots_at(cells, index) =~= sent.bits);
}

proof fn header_is_taken(
    cells: Seq<(u64, bool)>,
    half_period: Option<u64>,
    index: int,
    expected: Option<u8>,
    preamble: Preamble,
    candidates: Seq<int>,
)
    requires
        0 <= index,
        index + 64 <= cells.len(),
        framing::preamble_at(cells, index) == Some(preamble),
        index >= 64 ==> !candidates.contains(index - 64),
    ensures
        ({
            let channel = framing::preamble_channel(preamble);
            framing::scan(cells, half_period, index, expected, candidates) == seq![
                framing::subframe_at(
                    cells,
                    half_period,
                    index,
                    HeaderKind::Standard(preamble),
                    Some(channel),
                ),
            ] + framing::scan(
                cells,
                half_period,
                index + 64,
                Some(framing::other_channel(channel)),
                Seq::empty(),
            )
        }),
{
    let channel = framing::preamble_channel(preamble);
    let before = framing::leading_up(cells, half_period, candidates, index, channel);
    assert(before =~= Seq::<SubframeView>::empty());
    let here = framing::subframe_at(
        cells,
        half_period,
        index,
        HeaderKind::Standard(preamble),
        Some(channel),
    );
    assert(before.push(here) =~= seq![here]);
}

proof fn rest_is_found(
    cells: Seq<(u64, bool)>,
    at: int,
    stream: Seq<Sent>,
    inverted: bool,
    half_period: Option<u64>,
    k: nat,
    expected: Option<u8>,
)
    requires
        stream_laws::well_formed(stream),
        carried_from(cells, at, stream, inverted),
        cells.len() < at + 64 * stream.len() + 64,
        k <= stream.len(),
    ensures
        framing::scan(cells, half_period, at + 64 * k, expected, Seq::empty())
            == subframes_behind(cells, at, stream, half_period).skip(k as int),
    decreases stream.len() - k,
{
    let all = subframes_behind(cells, at, stream, half_period);
    if k == stream.len() {
        assert(framing::unanchored(cells, half_period, Seq::empty(), 0) =~= all.skip(k as int));
    } else {
        let channel = framing::preamble_channel(stream[k as int].preamble);
        let index = at + 64 * k;
        subframe_is_there(cells, at, stream, inverted, k as int);
        rest_is_found(
            cells,
            at,
            stream,
            inverted,
            half_period,
            k + 1,
            Some(framing::other_channel(channel)),
        );
        assert(at + 64 * (k + 1) == index + 64);
        header_is_taken(
            cells,
            half_period,
            index,
            expected,
            stream[k as int].preamble,
            Seq::empty(),
        );
        assert(seq![all[k as int]] + all.skip(k as int + 1) =~= all.skip(k as int));
    }
}

proof fn search_goes_on(
    cells: Seq<(u64, bool)>,
    half_period: Option<u64>,
    index: int,
    candidates: Seq<int>,
)
    requires
        0 <= index,
        index + 64 <= cells.len(),
        framing::preamble_at(cells, index) is None,
    ensures
        framing::scan(cells, half_period, index, None, candidates) == framing::scan(
            cells,
            half_period,
            index + 1,
            None,
            if framing::unknown_at(cells, index) {
                candidates.push(index)
            } else {
                candidates
            },
        ),
{
}

proof fn first_is_found(
    cells: Seq<(u64, bool)>,
    at: int,
    stream: Seq<Sent>,
    inverted: bool,
    half_period: Option<u64>,
    candidates: Seq<int>,
)
    requires
        stream.len() > 0,
        stream_laws::well_formed(stream),
        carried_from(cells, at, stream, inverted),
        cells.len() < at + 64 * stream.len() + 64,
        at >= 64 ==> !candidates.contains(at - 64),
    ensures
        framing::scan(cells, half_period, at, None, candidates) == subframes_behind(
            cells,
            at,
            stream,
            half_period,
        ),
{
    let all = subframes_behind(cells, at, stream, half_period);
    let channel = framing::preamble_channel(stream[0].preamble);
    subframe_is_there(cells, at, stream, inverted, 0);
    rest_is_found(
        cells,
        at,
        stream,
        inverted,
        half_period,
        1,
        Some(framing::other_channel(channel)),
    );
    header_is_taken(cells, half_period, at, None, stream[0].preamble, candidates);
    assert(at + 64 * 0 == at && at + 64 * 1 == at + 64);
    assert(seq![all[0]] + all.skip(1) =~= all);
}

proof fn lead_is_passed(
    cells: Seq<(u64, bool)>,
    at: int,
    stream: Seq<Sent>,
    inverted: bool,
    half_period: Option<u64>,
    index: int,
    candidates: Seq<int>,
)
    requires
        stream.len() > 0,
        stream_laws::well_formed(stream),
        carried_from(cells, at, stream, inverted),
        cells.len() < at + 64 * stream.len() + 64,
        forall|i: int| 0 <= i < at ==> #[trigger] framing::preamble_at(cells, i) is None,
        at >= 64 ==> !framing::unknown_at(cells, at - 64),
        0 <= index <= at,
        forall|i: int| 0 <= i < candidates.len() ==> framing::unknown_at(cells, #[trigger] candidates[i]),
    ensures
        framing::scan(cells, half_period, index, None, candidates) == subframes_behind(
            cells,
            at,
            stream,
            half_period,
        ),
    decreases at - index,
{
    if index < at {
        assert(framing::preamble_at(cells, index) is None);
        search_goes_on(cells, half_period, index, candidates);
        let next = if framing::unknown_at(cells, index) {
            candidates.push(index)
        } else {
            candidates
        };
        assert forall|i: int| 0 <= i < next.len() implies framing::unknown_at(
            cells,
            #[trigger] next[i],
        ) by {
            if i < candidates.len() {
                assert(next[i] == candidates[i]);
            }
        }
        lead_is_passed(cells, at, stream, inverted, half_period, index + 1, next);
    } else {
        first_is_found(cells, at, stream, inverted, half_period, candidates);
    }
}

/// Decoding locks on to a stream from anywhere: however many half-cells come
/// before the first preamble, and less than a subframe behind the last
/// subframe, the subframes that are found are exactly those of the stream, each
/// at its place. No preamble may be seen in what comes before, nor anything that
/// leads up to the first subframe.
pub proof fn stream_is_found_from_anywhere(
    lead: Seq<(u64, bool)>,
    sent: Seq<(u64, bool)>,
    tail: Seq<(u64, bool)>,
    stream: Seq<Sent>,
    inverted: bool,
    half_period: Option<u64>,
)
    requires
        stream.len() > 0,
        stream_laws::well_formed(stream),
        sent.len() == 64 * stream.len(),
        forall|i: int|
            0 <= i < sent.len() ==> (#[trigger] sent[i]).1 == (stream_laws::stream_levels(
                stream,
            )[i] != inverted),
        tail.len() < 64,
        forall|i: int|
            0 <= i < lead.len() ==> #[trigger] framing::preamble_at(lead + sent + tail, i) is None,
        lead.len() >= 64 ==> !framing::unknown_at(lead + sent + tail, lead.len() - 64),
    ensures
        framing::subframes_of(lead + sent + tail, half_period) == subframes_behind(
            lead + sent + tail,
            lead.len() as int,
            stream,
            half_period,
        ),
{
    let cells = lead + sent + tail;
    let at = lead.len() as int;
    assert forall|i: int| at <= i < at + 64 * stream.len() implies (#[trigger] cells[i]).1 == (
    stream_laws::stream_levels(stream)[i - at] != inverted) by {
        assert(cells[i] == sent[i - at]);
    }
    lead_is_passed(cells, at, stream, inverted, half_period, 0, Seq::empty());
}

/// A subframe lasts up to one half period behind the beginning of its last
/// half-cell. Without a known half period it lasts up to the beginning of the
/// next half-cell, or of its own last one where the stream ends.
pub proof fn subframes_end_with_their_last_half_cell(
    cells: Seq<(u64, bool)>,
    index: int,
    half_period: u64,
)
    requires
        0 <= index,
        index + 64 <= cells.len(),
    ensures
        cells[index + 63].0 + half_period <= u64::MAX ==> framing::end_at(
            cells,
            index,
            Some(half_period),
        ) == cells[index + 63].0 + half_period,
        index + 64 < cells.len() ==> framing::end_at(cells, index, None) == cells[index + 64].0,
        index + 64 == cells.len() ==> framing::end_at(cells, index, None) == cells[index + 63].0,
{
}

/// Whether the `i`-th subframe from `at` on begins with a header, which may be
/// none of the three preambles.
pub open spec fn has_header(cells: Seq<(u64, bool)>, at: int, i: int) -> bool {
    framing::preamble_at(cells, at + 64 * i) is Some || framing::unknown_at(cells, at + 64 * i)
}

/// The channel of the `k`-th of the headers that follow one another from `at`
/// on: a preamble tells it, and otherwise it is the other one than before.
pub open spec fn channel_in_turn(cells: Seq<(u64, bool)>, at: int, k: nat) -> int
    decreases k,
{
    match framing::preamble_at(cells, at + 64 * k) {
        Some(Preamble::Y) => 1,
        Some(_) => 0,
        None => if k == 0 {
            0
        } else {
            1 - channel_in_turn(cells, at, (k - 1) as nat)
        },
    }
}

/// Whether a subframe was read from the half-cells at `index`.
pub open spec fn read_from(
    found: SubframeView,
    cells: Seq<(u64, bool)>,
    index: int,
    half_period: Option<u64>,
) -> bool {
    &&& found.start == cells[index].0
    &&& found.end == framing::end_at(cells, index, half_period)
    &&& found.bits.len() == 28
    &&& forall|j: int|
        0 <= j < 28 ==> (#[trigger] found.bits[j] <==> cells[index + 8 + 2 * j].1 != cells[index + 9
            + 2 * j].1)
    &&& match framing::preamble_at(cells, index) {
        Some(preamble) => found.header == HeaderKind::Standard(preamble),
        None => found.header == HeaderKind::Unknown,
    }
}

proof fn channels_take_turns(cells: Seq<(u64, bool)>, at: int, k: nat)
    ensures
        0 <= channel_in_turn(cells, at, k) <= 1,
    decreases k,
{
    if k > 0 {
        channels_take_turns(cells, at, (k - 1) as nat);
    }
}

proof fn cadence_goes_on(
    cells: Seq<(u64, bool)>,
    at: int,
    n: nat,
    half_period: Option<u64>,
    k: nat,
    candidates: Seq<int>,
)
    requires
        0 <= at,
        at + 64 * n <= cells.len() < at + 64 * n + 64,
        0 < k <= n,
        candidates.len() == 0,
        forall|i: int| 0 < i < n ==> #[trigger] has_header(cells, at, i),
    ensures
        ({
            let found = framing::scan(
                cells,
                half_period,
                at + 64 * k,
                Some((1 - channel_in_turn(cells, at, (k - 1) as nat)) as u8),
                candidates,
            );
            &&& found.len() == n - k
            &&& forall|i: int|
                0 <= i < n - k ==> read_from(
                    #[trigger] found[i],
                    cells,
                    at + 64 * (k + i),
                    half_period,
                ) && found[i].channel == Some(channel_in_turn(cells, at, (k + i) as nat) as u8)
        }),
    decreases n - k,
{
    channels_take_turns(cells, at, (k - 1) as nat);
    channels_take_turns(cells, at, k);
    let expected = Some((1 - channel_in_turn(cells, at, (k - 1) as nat)) as u8);
    let index = at + 64 * k;
    assert(candidates =~= Seq::<int>::empty());
    if k == n {
        assert(framing::scan(cells, half_period, index, expected, candidates)
            == framing::unanchored(cells, half_period, candidates, 0));
    } else {
        assert(has_header(cells, at, k as int));
        cadence_goes_on(cells, at, n, half_period, k + 1, candidates);
        let channel = channel_in_turn(cells, at, k) as u8;
        let rest = framing::scan(
            cells,
            half_period,
            index + 64,
            Some((1 - channel_in_turn(cells, at, k)) as u8),
            candidates,
        );
        assert(at + 64 * (k + 1) == index + 64);
        assert(framing::other_channel(channel) == (1 - channel_in_turn(cells, at, k)) as u8);
        let all = framing::scan(cells, half_period, index, expected, candidates);
        let header = match framing::preamble_at(cells, index) {
            Some(preamble) => HeaderKind::Standard(preamble),
            None => HeaderKind::Unknown,
        };
        let here = framing::subframe_at(cells, half_period, index, header, Some(channel));
        assert(framing::leading_up(cells, half_period, candidates, index, channel) =~= Seq::<
            SubframeView,
        >::empty());
        assert(Seq::<SubframeView>::empty().push(here) =~= seq![here]);
        assert(all == seq![here] + rest);
        assert forall|i: int| 0 <= i < n - k implies read_from(
            #[trigger] all[i],
            cells,
            at + 64 * (k + i),
            half_period,
        ) && all[i].channel == Some(channel_in_turn(cells, at, (k + i) as nat) as u8) by {
            if i > 0 {
                assert(all[i] == rest[i - 1]);
                assert(at + 64 * (k + 1 + (i - 1)) == at + 64 * (k + i));
            } else {
                assert(all[i] == here);
            }
        }
    }
}

/// The channel of the `k`-th header where the `first`-th is the first preamble:
/// the headers before it take turns backwards from it.
pub open spec fn channel_around(cells: Seq<(u64, bool)>, at: int, first: nat, k: nat) -> int {
    let anchor = channel_in_turn(cells, at + 64 * first, 0);
    if k >= first {
        channel_in_turn(cells, at + 64 * first, (k - first) as nat)
    } else if (first - k) % 2 == 0 {
        anchor
    } else {
        1 - anchor
    }
}

/// Whether a list holds exactly the places, from `from` up to `to`, of headers
/// that are no preamble.
pub open spec fn lists_unknown(
    kept: Seq<int>,
    cells: Seq<(u64, bool)>,
    from: int,
    to: int,
) -> bool {
    forall|i: int| #[trigger]
        kept.contains(i) <==> from <= i < to && framing::unknown_at(cells, i)
}

proof fn first_header(
    cells: Seq<(u64, bool)>,
    anchor: int,
    half_period: Option<u64>,
    index: int,
    candidates: Seq<int>,
) -> (kept: Seq<int>)
    requires
        0 <= index <= anchor,
        anchor + 64 <= cells.len(),
        forall|i: int| 0 <= i < anchor ==> #[trigger] framing::preamble_at(cells, i) is None,
        lists_unknown(candidates, cells, 0, index),
    ensures
        framing::scan(cells, half_period, index, None, candidates) == framing::scan(
            cells,
            half_period,
            anchor,
            None,
            kept,
        ),
        lists_unknown(kept, cells, 0, anchor),
    decreases anchor - index,
{
    if index < anchor {
        assert(framing::preamble_at(cells, index) is None);
        search_goes_on(cells, half_period, index, candidates);
        let next = if framing::unknown_at(cells, index) {
            candidates.push(index)
        } else {
            candidates
        };
        assert forall|i: int| #[trigger]
            next.contains(i) <==> 0 <= i < index + 1 && framing::unknown_at(cells, i) by {
            if framing::unknown_at(cells, index) {
                assert(next[candidates.len() as int] == index);
                if candidates.contains(i) {
                    let k = choose|k: int| 0 <= k < candidates.len() && candidates[k] == i;
                    assert(next[k] == i);
                }
                if next.contains(i) && i != index {
                    let k = choose|k: int| 0 <= k < next.len() && next[k] == i;
                    assert(candidates[k] == i);
                }
            }
            assert(candidates.contains(i) <==> 0 <= i < index && framing::unknown_at(cells, i));
        }
        first_header(cells, anchor, half_period, index + 1, next)
    } else {
        candidates
    }
}

proof fn leading_headers(
    cells: Seq<(u64, bool)>,
    at: int,
    half_period: Option<u64>,
    kept: Seq<int>,
    m: nat,
    channel: u8,
)
    requires
        0 <= at < 64,
        at + 64 * m <= cells.len(),
        channel == 0 || channel == 1,
        forall|i: int| 0 <= i < m ==> kept.contains(#[trigger] (at + 64 * i)),
        forall|i: int|
            kept.contains(i) ==> #[trigger] framing::preamble_at(cells, i) is None,
    ensures
        ({
            let found = framing::leading_up(cells, half_period, kept, at + 64 * m, channel);
            &&& found.len() == m
            &&& forall|i: int|
                0 <= i < m ==> read_from(#[trigger] found[i], cells, at + 64 * i, half_period)
                    && found[i].channel == Some(
                    if (m - i) % 2 == 0 {
                        channel
                    } else {
                        (1 - channel) as u8
                    },
                )
        }),
    decreases m,
{
    let found = framing::leading_up(cells, half_period, kept, at + 64 * m, channel);
    if m > 0 {
        let last = at + 64 * (m - 1);
        let other = framing::other_channel(channel);
        assert(kept.contains(at + 64 * (m - 1)));
        assert(framing::preamble_at(cells, last) is None);
        leading_headers(cells, at, half_period, kept, (m - 1) as nat, other);
        let rest = framing::leading_up(cells, half_period, kept, last, other);
        assert(at + 64 * m - 64 == last);
        assert forall|i: int| 0 <= i < m implies read_from(
            #[trigger] found[i],
            cells,
            at + 64 * i,
            half_period,
        ) && found[i].channel == Some(
            if (m - i) % 2 == 0 {
                channel
            } else {
                (1 - channel) as u8
            },
        ) by {
            if i < m - 1 {
                assert(found[i] == rest[i]);
            }
        }
    }
}

/// Headers that follow one another every 64 half-cells begin subframes, also
/// where they are none of the three preambles, as soon as one of them is: the
/// channels take turns, forwards and backwards from the first preamble. No
/// subframe is lost or added, and every bit is read as a change in the middle of
/// its cell.
pub proof fn headers_in_turn_are_taken(
    cells: Seq<(u64, bool)>,
    at: int,
    first: nat,
    n: nat,
    half_period: Option<u64>,
)
    requires
        0 <= at < 64,
        first < n,
        at + 64 * n <= cells.len() < at + 64 * n + 64,
        forall|i: int|
            0 <= i < at + 64 * first ==> #[trigger] framing::preamble_at(cells, i) is None,
        framing::preamble_at(cells, at + 64 * first) is Some,
        forall|i: int| 0 <= i < n ==> #[trigger] has_header(cells, at, i),
    ensures
        ({
            let found = framing::subframes_of(cells, half_period);
            &&& found.len() == n
            &&& forall|k: int|
                0 <= k < n ==> read_from(#[trigger] found[k], cells, at + 64 * k, half_period)
                    && found[k].channel == Some(channel_around(cells, at, first, k as nat) as u8)
        }),
{
    let anchor = at + 64 * first;
    assert(lists_unknown(Seq::empty(), cells, 0, 0));
    let kept = first_header(cells, anchor, half_period, 0, Seq::empty());
    let preamble = framing::preamble_at(cells, anchor).unwrap();
    let channel = framing::preamble_channel(preamble);
    channels_take_turns(cells, anchor, 0);
    assert(anchor + 64 * 0 == anchor && anchor + 64 * 1 == anchor + 64);
    assert(channel == channel_in_turn(cells, anchor, 0));
    assert forall|i: int| 0 <= i < first implies kept.contains(#[trigger] (at + 64 * i)) by {
        assert(has_header(cells, at, i));
        assert(framing::preamble_at(cells, at + 64 * i) is None);
    }
    leading_headers(cells, at, half_period, kept, first, channel);
    let m = (n - first) as nat;
    assert forall|i: int| 0 < i < m implies #[trigger] has_header(cells, anchor, i) by {
        assert(has_header(cells, at, first + i));
        assert(at + 64 * (first + i) == anchor + 64 * i);
    }
    cadence_goes_on(cells, anchor, m, half_period, 1, Seq::empty());
    assert(framing::other_channel(channel) == (1 - channel_in_turn(cells, anchor, 0)) as u8);
    let before = framing::leading_up(cells, half_period, kept, anchor, channel);
    let here = framing::subframe_at(
        cells,
        half_period,
        anchor,
        HeaderKind::Standard(preamble),
        Some(channel),
    );
    let rest = framing::scan(
        cells,
        half_period,
        anchor + 64,
        Some(framing::other_channel(channel)),
        Seq::empty(),
    );
    let found = framing::subframes_of(cells, half_period);
    anchor_is_taken(cells, half_period, anchor, preamble, kept);
    assert(found == before.push(here) + rest);
    assert forall|k: int| 0 <= k < n implies read_from(
        #[trigger] found[k],
        cells,
        at + 64 * k,
        half_period,
    ) && found[k].channel == Some(channel_around(cells, at, first, k as nat) as u8) by {
        if k < first {
            assert(found[k] == before[k]);
        } else if k > first {
            let i = k - first - 1;
            assert(found[k] == rest[i]);
            assert(anchor + 64 * (1 + i) == at + 64 * k);
        } else {
            assert(found[k] == here);
        }
    }
}

proof fn anchor_is_taken(
    cells: Seq<(u64, bool)>,
    half_period: Option<u64>,
    index: int,
    preamble: Preamble,
    candidates: Seq<int>,
)
    requires
        0 <= index,
        index + 64 <= cells.len(),
        framing::preamble_at(cells, index) == Some(preamble),
    ensures
        ({
            let channel = framing::preamble_channel(preamble);
            framing::scan(cells, half_period, index, None, candidates) == framing::leading_up(
                cells,
                half_period,
                candidates,
                index,
                channel,
            ).push(
                framing::subframe_at(
                    cells,
                    half_period,
                    index,
                    HeaderKind::Standard(preamble),
                    Some(channel),
                ),
            ) + framing::scan(
                cells,
                half_period,
                index + 64,
                Some(framing::other_channel(channel)),
                Seq::empty(),
            )
        }),
{
}

/// Whether the levels of eight half-cells are the given ones, or all of them the
/// other way round.
pub open spec fn has_levels(cells: Seq<(u64, bool)>, index: int, levels: Seq<bool>) -> bool {
    ||| forall|k: int| 0 <= k < 8 ==> (#[trigger] cells[index + k]).1 == levels[k]
    ||| forall|k: int| 0 <= k < 8 ==> (#[trigger] cells[index + k]).1 == !levels[k]
}

/// A preamble has a run of three half-cells, and then its own two runs: X is
/// `11100010`, Y is `11100100` and Z is `11101000`, in either polarity. Nothing
/// else is a preamble.
pub proof fn preambles_are_their_levels(cells: Seq<(u64, bool)>, index: int)
    requires
        0 <= index,
        index + 8 <= cells.len(),
    ensures
        framing::preamble_at(cells, index) == Some(Preamble::X) <==> has_levels(
            cells,
            index,
            seq![true, true, true, false, false, false, true, false],
        ),
        framing::preamble_at(cells, index) == Some(Preamble::Y) <==> has_levels(
            cells,
            index,
            seq![true, true, true, false, false, true, false, false],
        ),
        framing::preamble_at(cells, index) == Some(Preamble::Z) <==> has_levels(
            cells,
            index,
            seq![true, true, true, false, true, false, false, false],
        ),
{
    let x = seq![true, true, true, false, false, false, true, false];
    let y = seq![true, true, true, false, false, true, false, false];
    let z = seq![true, true, true, false, true, false, false, false];
    assert(framing::pattern(Preamble::X) =~= x);
    assert(framing::pattern(Preamble::Y) =~= y);
    assert(framing::pattern(Preamble::Z) =~= z);
    has_levels_is_preamble(cells, index, Preamble::X);
    has_levels_is_preamble(cells, index, Preamble::Y);
    has_levels_is_preamble(cells, index, Preamble::Z);
    if framing::has_preamble(cells, index, Preamble::X) && framing::has_preamble(
        cells,
        index,
        Preamble::Y,
    ) {
        framing::preambles_are_distinct(cells, index, Preamble::X, Preamble::Y);
    }
    if framing::has_preamble(cells, index, Preamble::X) && framing::has_preamble(
        cells,
        index,
        Preamble::Z,
    ) {
        framing::preambles_are_distinct(cells, index, Preamble::X, Preamble::Z);
    }
    if framing::has_preamble(cells, index, Preamble::Y) && framing::has_preamble(
        cells,
        index,
        Preamble::Z,
    ) {
        framing::preambles_are_distinct(cells, index, Preamble::Y, Preamble::Z);
    }
}

proof fn has_levels_is_preamble(cells: Seq<(u64, bool)>, index: int, preamble: Preamble)
    requires
        0 <= index,
        index + 8 <= cells.len(),
    ensures
        has_levels(cells, index, framing::pattern(preamble)) <==> framing::has_preamble(
            cells,
            index,
            preamble,
        ),
{
    let levels = framing::pattern(preamble);
    if forall|k: int| 0 <= k < 8 ==> (#[trigger] cells[index + k]).1 == levels[k] {
        assert(framing::sends(cells, index, preamble, false));
    }
    if forall|k: int| 0 <= k < 8 ==> (#[trigger] cells[index + k]).1 == !levels[k] {
        assert(framing::sends(cells, index, preamble, true));
    }
    if framing::sends(cells, index, preamble, false) {
        assert forall|k: int| 0 <= k < 8 implies (#[trigger] cells[index + k]).1 == levels[k] by {}
    }
    if framing::sends(cells, index, preamble, true) {
        assert forall|k: int| 0 <= k < 8 implies (#[trigger] cells[index + k]).1 == !levels[k] by {}
    }
}

/// A header that is no preamble begins with a change of the level and three
/// half-cells at one level.
pub proof fn unknown_headers_have_long_runs(cells: Seq<(u64, bool)>, index: int)
    requires
        0 < index,
        index + 8 <= cells.len(),
    ensures
        framing::unknown_at(cells, index) <==> {
            &&& framing::preamble_at(cells, index) is None
            &&& cells[index - 1].1 != cells[index].1
            &&& cells[index].1 == cells[index + 1].1
            &&& cells[index + 1].1 == cells[index + 2].1
        },
{
}

/// The label of every header, and the channel behind every preamble.
pub proof fn headers_are_named(header: HeaderKind)
    ensures
        header == HeaderKind::Standard(Preamble::X) ==> framing::header_label(header)
            == "Preamble M"@,
        header == HeaderKind::Standard(Preamble::Y) ==> framing::header_label(header)
            == "Preamble W"@,
        header == HeaderKind::Standard(Preamble::Z) ==> framing::header_label(header)
            == "Preamble B"@,
        header == HeaderKind::Unknown ==> framing::header_label(header) == "Unknown Preamble"@,
        header matches HeaderKind::Standard(preamble) ==> (framing::preamble_channel(preamble) == 1
            <==> preamble == Preamble::Y),
        header matches HeaderKind::Standard(preamble) ==> framing::preamble_channel(preamble) <= 1,
{
}

/// Whether one of a list of places has a neighbour in it a subframe away.
pub open spec fn has_neighbour(places: Seq<int>, i: int) -> bool {
    exists|j: int|
        0 <= j < places.len() && (j == i - 1 || j == i + 1) && (#[trigger] places[j] == places[i]
            - 64 || places[j] == places[i] + 64)
}

proof fn neighbours_are_in_cadence(places: Seq<int>, i: int)
    requires
        framing::ascending(places),
        0 <= i < places.len(),
    ensures
        framing::in_cadence(places, i) <==> has_neighbour(places, i),
{
    if i > 0 {
        assert(places[i - 1] < places[i]);
    }
    if i + 1 < places.len() {
        assert(places[i] < places[i + 1]);
    }
    if framing::in_cadence(places, i) {
        if i > 0 && places[i - 1] + 64 == places[i] {
            assert(places[i - 1] == places[i] - 64);
        } else {
            assert(places[i + 1] == places[i] + 64);
        }
    }
}

/// The numbers below `n` of the places that have a neighbour.
pub open spec fn with_neighbour(places: Seq<int>, n: nat) -> Seq<int> {
    Seq::new(n, |i: int| i).filter(|i: int| has_neighbour(places, i))
}

/// Where no preamble tells the channels, a header begins a subframe exactly where
/// another one comes a subframe before or behind it, and the subframe belongs to
/// no channel.
pub proof fn headers_without_preamble_need_a_neighbour(
    cells: Seq<(u64, bool)>,
    half_period: Option<u64>,
    places: Seq<int>,
    n: nat,
)
    requires
        framing::ascending(places),
        n <= places.len(),
        forall|i: int|
            0 <= i < places.len() ==> framing::preamble_at(cells, #[trigger] places[i]) is None,
    ensures
        ({
            let found = framing::unanchored(cells, half_period, places, n);
            let kept = with_neighbour(places, n);
            &&& found.len() == kept.len()
            &&& forall|k: int|
                0 <= k < found.len() ==> 0 <= #[trigger] kept[k] < n && found[k].channel is None
                    && read_from(found[k], cells, places[kept[k]], half_period)
        }),
    decreases n,
{
    reveal(Seq::filter);
    let numbers = Seq::new(n, |i: int| i);
    if n > 0 {
        headers_without_preamble_need_a_neighbour(cells, half_period, places, (n - 1) as nat);
        neighbours_are_in_cadence(places, n - 1);
        assert(numbers.drop_last() =~= Seq::new((n - 1) as nat, |i: int| i));
        assert(framing::preamble_at(cells, places[n - 1]) is None);
        let found = framing::unanchored(cells, half_period, places, n);
        let kept = with_neighbour(places, n);
        let before = with_neighbour(places, (n - 1) as nat);
        assert(kept == if has_neighbour(places, n - 1) {
            before.push(n - 1)
        } else {
            before
        });
        assert forall|k: int| 0 <= k < found.len() implies 0 <= #[trigger] kept[k] < n
            && found[k].channel is None && read_from(
            found[k],
            cells,
            places[kept[k]],
            half_period,
        ) by {
            if k < before.len() {
                assert(0 <= before[k] < n - 1);
            }
        }
    }
}

proof fn nothing_is_anchored(
    cells: Seq<(u64, bool)>,
    half_period: Option<u64>,
    index: int,
    candidates: Seq<int>,
) -> (kept: Seq<int>)
    requires
        0 <= index,
        forall|i: int| 0 <= i < cells.len() ==> #[trigger] framing::preamble_at(cells, i) is None,
        framing::ascending(candidates),
        index + 64 <= cells.len() + 1,
        lists_unknown(candidates, cells, 0, index),
    ensures
        framing::scan(cells, half_period, index, None, candidates) == framing::unanchored(
            cells,
            half_period,
            kept,
            kept.len(),
        ),
        framing::ascending(kept),
        lists_unknown(kept, cells, 0, cells.len() - 63),
    decreases cells.len() - index,
{
    if index + 64 <= cells.len() {
        assert(framing::preamble_at(cells, index) is None);
        search_goes_on(cells, half_period, index, candidates);
        let next = if framing::unknown_at(cells, index) {
            candidates.push(index)
        } else {
            candidates
        };
        assert forall|i: int| #[trigger]
            next.contains(i) <==> 0 <= i < index + 1 && framing::unknown_at(cells, i) by {
            if framing::unknown_at(cells, index) {
                assert(next[candidates.len() as int] == index);
                if candidates.contains(i) {
                    let k = choose|k: int| 0 <= k < candidates.len() && candidates[k] == i;
                    assert(next[k] == i);
                }
                if next.contains(i) && i != index {
                    let k = choose|k: int| 0 <= k < next.len() && next[k] == i;
                    assert(candidates[k] == i);
                }
            }
            assert(candidates.contains(i) <==> 0 <= i < index && framing::unknown_at(cells, i));
        }
        assert forall|i: int, j: int| 0 <= i < j < next.len() implies (#[trigger] next[i]) < (
        #[trigger] next[j]) by {
            if j < candidates.len() {
                assert(candidates[i] < candidates[j]);
            } else {
                assert(candidates.contains(candidates[i]));
            }
        }
        nothing_is_anchored(cells, half_period, index + 1, next)
    } else {
        candidates
    }
}

/// A capture without any preamble is read by its unknown headers: from the
/// ascending list of all of them come the subframes of those with a neighbour.
pub proof fn captures_without_preamble_are_read_by_headers(
    cells: Seq<(u64, bool)>,
    half_period: Option<u64>,
)
    requires
        cells.len() >= 64,
        forall|i: int| 0 <= i < cells.len() ==> #[trigger] framing::preamble_at(cells, i) is None,
    ensures
        exists|kept: Seq<int>| #[trigger]
            lists_unknown(kept, cells, 0, cells.len() - 63) && framing::ascending(kept) && {
                let found = framing::subframes_of(cells, half_period);
                &&& found.len() == with_neighbour(kept, kept.len()).len()
                &&& forall|k: int|
                    0 <= k < found.len() ==> (#[trigger] found[k]).channel is None && read_from(
                        found[k],
                        cells,
                        kept[with_neighbour(kept, kept.len())[k]],
                        half_period,
                    )
            },
{
    let none = Seq::<int>::empty();
    assert forall|i: int| #[trigger]
        none.contains(i) <==> 0 <= i < 0 && framing::unknown_at(cells, i) by {}
    let kept = nothing_is_anchored(cells, half_period, 0, none);
    assert forall|i: int| 0 <= i < kept.len() implies framing::preamble_at(
        cells,
        #[trigger] kept[i],
    ) is None by {
        assert(kept.contains(kept[i]));
    }
    headers_without_preamble_need_a_neighbour(cells, half_period, kept, kept.len());
    let places = with_neighbour(kept, kept.len());
    let found = framing::subframes_of(cells, half_period);
    assert forall|k: int| 0 <= k < found.len() implies (#[trigger] found[k]).channel is None
        && read_from(found[k], cells, kept[places[k]], half_period) by {
        assert(0 <= places[k] < kept.len());
    }
}

} // verus!
