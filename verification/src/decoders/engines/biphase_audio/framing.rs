//! Finding the subframes in a stream of half-cells.
use vstd::prelude::*;
use crate::decoders::engines::biphase_audio::half_cells;

verus! {

/// AES3 subframe preamble.
#[derive(Debug, Clone, Copy, PartialEq, Eq, Structural)]
pub enum Preamble {
    /// Channel A (subframe 1), not the first frame of a block.
    X,
    /// Channel B (subframe 2).
    Y,
    /// Channel A, first frame of a block.
    Z,
}

/// The eight line states of a preamble (EBU Tech 3250 §2.4) after a low line.
/// After a high line, the complement is sent.
pub open spec fn pattern(preamble: Preamble) -> Seq<bool> {
    match preamble {
        Preamble::X => seq![true, true, true, false, false, false, true, false],
        Preamble::Y => seq![true, true, true, false, false, true, false, false],
        Preamble::Z => seq![true, true, true, false, true, false, false, false],
    }
}

/// A framing header: either one of the three standard preambles or an
/// eight-half-cell region that begins like a preamble but matches none of
/// them.
#[derive(Debug, Clone, Copy, PartialEq, Eq, Structural)]
pub enum HeaderKind {
    Standard(Preamble),
    Unknown,
}

/// The label shown for a header.
pub open spec fn header_label(header: HeaderKind) -> Seq<char> {
    match header {
        HeaderKind::Standard(Preamble::X) => "Preamble M"@,
        HeaderKind::Standard(Preamble::Y) => "Preamble W"@,
        HeaderKind::Standard(Preamble::Z) => "Preamble B"@,
        HeaderKind::Unknown => "Unknown Preamble"@,
    }
}

/// The channel of the subframe behind a standard preamble: 0 is subframe A, 1
/// is subframe B.
pub open spec fn preamble_channel(preamble: Preamble) -> u8 {
    match preamble {
        Preamble::X | Preamble::Z => 0,
        Preamble::Y => 1,
    }
}

/// The other channel of a frame: the two differ in their lowest bit.
pub open spec fn other_channel(channel: u8) -> u8 {
    if channel % 2 == 0 {
        (channel + 1) as u8
    } else {
        (channel - 1) as u8
    }
}

impl HeaderKind {
    /// The label shown for this header.
    pub fn label(self) -> (label: &'static str)
        ensures
            label@ == header_label(self),
    {
        match self {
            HeaderKind::Standard(Preamble::X) => "Preamble M",
            HeaderKind::Standard(Preamble::Y) => "Preamble W",
            HeaderKind::Standard(Preamble::Z) => "Preamble B",
            HeaderKind::Unknown => "Unknown Preamble",
        }
    }

    /// Channel 0 is subframe A, channel 1 is subframe B. A recognized header
    /// determines its channel outright; an unrecognized one inherits the
    /// channel expected from an anchored framing sequence, if any.
    pub fn channel(self, expected: Option<u8>) -> (channel: Option<u8>)
        ensures
            channel == (match self {
                HeaderKind::Standard(preamble) => Some(preamble_channel(preamble)),
                HeaderKind::Unknown => expected,
            }),
    {
        match self {
            HeaderKind::Standard(Preamble::X) => Some(0),
            HeaderKind::Standard(Preamble::Y) => Some(1),
            HeaderKind::Standard(Preamble::Z) => Some(0),
            HeaderKind::Unknown => expected,
        }
    }
}

/// A decoded AES3 subframe.
#[derive(Debug, Clone, Copy)]
pub struct Subframe {
    pub header: HeaderKind,
    /// Channel 0 is subframe A, channel 1 is subframe B. The channel is
    /// unknown for an unrecognized framing header that cannot be anchored to
    /// a neighboring recognized header.
    pub channel: Option<u8>,
    /// Slots 4-31, bit index 0 = slot 4.
    pub bits: [bool; 28],
    pub start: u64,
    pub end: u64,
}

/// A [`Subframe`] with its bits as a sequence.
#[verifier::ext_equal]
pub struct SubframeView {
    pub header: HeaderKind,
    pub channel: Option<u8>,
    pub bits: Seq<bool>,
    pub start: u64,
    pub end: u64,
}

impl View for Subframe {
    type V = SubframeView;

    open spec fn view(&self) -> SubframeView {
        SubframeView {
            header: self.header,
            channel: self.channel,
            bits: self.bits@,
            start: self.start,
            end: self.end,
        }
    }
}

/// The views of a list of subframes.
pub open spec fn subframe_views(subframes: Seq<Subframe>) -> Seq<SubframeView> {
    Seq::new(subframes.len(), |i: int| subframes[i]@)
}

/// Whether the eight half-cells at `index` are the preamble, as sent after a
/// line at level `previous`.
pub open spec fn sends(
    cells: Seq<(u64, bool)>,
    index: int,
    preamble: Preamble,
    previous: bool,
) -> bool {
    &&& 0 <= index
    &&& index + 8 <= cells.len()
    &&& forall|k: int|
        0 <= k < 8 ==> (#[trigger] cells[index + k]).1 == (pattern(preamble)[k] != previous)
}

/// Whether the eight half-cells at `index` are the preamble in either polarity.
pub open spec fn has_preamble(cells: Seq<(u64, bool)>, index: int, preamble: Preamble) -> bool {
    sends(cells, index, preamble, false) || sends(cells, index, preamble, true)
}

/// The preamble at `index`, if there is one.
pub open spec fn preamble_at(cells: Seq<(u64, bool)>, index: int) -> Option<Preamble> {
    if has_preamble(cells, index, Preamble::X) {
        Some(Preamble::X)
    } else if has_preamble(cells, index, Preamble::Y) {
        Some(Preamble::Y)
    } else if has_preamble(cells, index, Preamble::Z) {
        Some(Preamble::Z)
    } else {
        None
    }
}

/// The eight half-cells at one place are at most one preamble.
pub proof fn preambles_are_distinct(
    cells: Seq<(u64, bool)>,
    index: int,
    a: Preamble,
    b: Preamble,
)
    requires
        has_preamble(cells, index, a),
        has_preamble(cells, index, b),
    ensures
        a == b,
{
    let from_a = sends(cells, index, a, true);
    let from_b = sends(cells, index, b, true);
    assert forall|k: int| 0 <= k < 8 implies (#[trigger] pattern(a)[k] != from_a) == (pattern(b)[k]
        != from_b) by {
        assert(cells[index + k].1 == (pattern(a)[k] != from_a));
        assert(cells[index + k].1 == (pattern(b)[k] != from_b));
    }
    assert(pattern(a)[0] && pattern(b)[0]);
    assert((pattern(a)[4] != from_a) == (pattern(b)[4] != from_b));
    assert((pattern(a)[5] != from_a) == (pattern(b)[5] != from_b));
}

/// Whether an unrecognized header begins at `index`: a run of three or more
/// half-cells of one level, which only a preamble may have, in a place where
/// none of the three preambles is.
pub open spec fn unknown_at(cells: Seq<(u64, bool)>, index: int) -> bool {
    &&& 0 <= index
    &&& index + 8 <= cells.len()
    &&& preamble_at(cells, index) is None
    &&& index > 0 ==> cells[index - 1].1 != cells[index].1
    &&& cells[index + 1].1 == cells[index].1
    &&& cells[index + 2].1 == cells[index].1
}

/// The bits of slots 4-31 of the subframe at `index`: a bit is one where the
/// line changes in the middle of its cell.
pub open spec fn slots_at(cells: Seq<(u64, bool)>, index: int) -> Seq<bool> {
    Seq::new(28, |k: int| cells[index + 8 + 2 * k].1 != cells[index + 9 + 2 * k].1)
}

/// When the subframe at `index` ends: one half period after its last half-cell
/// begins or, without a recovered half period, where the next half-cell begins.
pub open spec fn end_at(cells: Seq<(u64, bool)>, index: int, half_period: Option<u64>) -> u64 {
    match half_period {
        Some(half_period) => half_cells::saturated(cells[index + 63].0 + half_period),
        None => if index + 64 < cells.len() {
            cells[index + 64].0
        } else {
            cells[index + 63].0
        },
    }
}

/// The subframe at `index`.
pub open spec fn subframe_at(
    cells: Seq<(u64, bool)>,
    half_period: Option<u64>,
    index: int,
    header: HeaderKind,
    channel: Option<u8>,
) -> SubframeView {
    SubframeView {
        header,
        channel,
        bits: slots_at(cells, index),
        start: cells[index].0,
        end: end_at(cells, index, half_period),
    }
}

/// The unrecognized headers that lead up to the recognized header at `anchor`
/// without a gap, each 64 half-cells before the next and on the other channel.
pub open spec fn leading_up(
    cells: Seq<(u64, bool)>,
    half_period: Option<u64>,
    candidates: Seq<int>,
    anchor: int,
    channel: u8,
) -> Seq<SubframeView>
    decreases anchor,
{
    if anchor >= 64 && candidates.contains(anchor - 64) {
        let before = other_channel(channel);
        leading_up(cells, half_period, candidates, anchor - 64, before).push(
            subframe_at(cells, half_period, anchor - 64, HeaderKind::Unknown, Some(before)),
        )
    } else {
        Seq::empty()
    }
}

/// Whether the candidate at position `i` of the list is 64 half-cells away from
/// the one before it or the one after it.
pub open spec fn in_cadence(candidates: Seq<int>, i: int) -> bool {
    (i > 0 && candidates[i - 1] + 64 == candidates[i]) || (i + 1 < candidates.len() && candidates[i]
        + 64 == candidates[i + 1])
}

/// The first `n` unrecognized headers, without a channel, as far as they are
/// part of a cadence.
pub open spec fn unanchored(
    cells: Seq<(u64, bool)>,
    half_period: Option<u64>,
    candidates: Seq<int>,
    n: nat,
) -> Seq<SubframeView>
    decreases n,
{
    if n == 0 {
        Seq::empty()
    } else {
        let rest = unanchored(cells, half_period, candidates, (n - 1) as nat);
        if in_cadence(candidates, n - 1) {
            rest.push(
                subframe_at(cells, half_period, candidates[n - 1], HeaderKind::Unknown, None),
            )
        } else {
            rest
        }
    }
}

/// The subframes from `index` on.
///
/// A recognized header is a subframe, and so is an unrecognized one right
/// behind a subframe: `expected` is the channel due there. Unrecognized headers
/// elsewhere are kept in `candidates` until a recognized one tells whether they
/// lead up to it, or until the stream ends.
pub open spec fn scan(
    cells: Seq<(u64, bool)>,
    half_period: Option<u64>,
    index: int,
    expected: Option<u8>,
    candidates: Seq<int>,
) -> Seq<SubframeView>
    decreases cells.len() - index,
{
    if index + 64 > cells.len() {
        unanchored(cells, half_period, candidates, candidates.len())
    } else {
        match (preamble_at(cells, index), expected) {
            (Some(preamble), _) => {
                let channel = preamble_channel(preamble);
                leading_up(cells, half_period, candidates, index, channel).push(
                    subframe_at(
                        cells,
                        half_period,
                        index,
                        HeaderKind::Standard(preamble),
                        Some(channel),
                    ),
                ) + scan(
                    cells,
                    half_period,
                    index + 64,
                    Some(other_channel(channel)),
                    Seq::empty(),
                )
            },
            (None, Some(channel)) if unknown_at(cells, index) => {
                seq![subframe_at(cells, half_period, index, HeaderKind::Unknown, Some(channel))]
                    + scan(
                    cells,
                    half_period,
                    index + 64,
                    Some(other_channel(channel)),
                    candidates,
                )
            },
            _ => scan(
                cells,
                half_period,
                index + 1,
                None,
                if unknown_at(cells, index) {
                    candidates.push(index)
                } else {
                    candidates
                },
            ),
        }
    }
}

/// All subframes of a stream of half-cells.
pub open spec fn subframes_of(cells: Seq<(u64, bool)>, half_period: Option<u64>) -> Seq<
    SubframeView,
> {
    scan(cells, half_period, 0, None, Seq::empty())
}

fn pattern_of(preamble: Preamble) -> (states: [bool; 8])
    ensures
        states@ == pattern(preamble),
{
    let states = match preamble {
        Preamble::X => [true, true, true, false, false, false, true, false],
        Preamble::Y => [true, true, true, false, false, true, false, false],
        Preamble::Z => [true, true, true, false, true, false, false, false],
    };
    assert(states@ =~= pattern(preamble));
    states
}

fn matches_pattern(cells: &Vec<(u64, bool)>, index: usize, preamble: Preamble) -> (found: bool)
    requires
        index + 8 <= cells.len(),
    ensures
        found == has_preamble(cells@, index as int, preamble),
{
    let states = pattern_of(preamble);
    let mut direct = true;
    let mut inverted = true;
    let mut k: usize = 0;
    while k < 8
        invariant
            k <= 8,
            index + 8 <= cells.len(),
            states@ == pattern(preamble),
            direct == (forall|j: int|
                0 <= j < k ==> (#[trigger] cells@[index + j]).1 == (pattern(preamble)[j]
                    != false)),
            inverted == (forall|j: int|
                0 <= j < k ==> (#[trigger] cells@[index + j]).1 == (pattern(preamble)[j]
                    != true)),
        decreases 8 - k,
    {
        let level = cells[index + k].1;
        let ghost was_direct = direct;
        let ghost was_inverted = inverted;
        if level != states[k] {
            direct = false;
            assert(cells@[index + k].1 != (pattern(preamble)[k as int] != false));
        } else {
            inverted = false;
            assert(cells@[index + k].1 != (pattern(preamble)[k as int] != true));
        }
        k += 1;
    }
    direct || inverted
}

/// Match the eight half-cells at `index` against a preamble or its complement.
pub fn match_preamble(cells: &Vec<(u64, bool)>, index: usize) -> (found: Option<Preamble>)
    ensures
        found == preamble_at(cells@, index as int),
{
    if index > cells.len() || cells.len() - index < 8 {
        None
    } else if matches_pattern(cells, index, Preamble::X) {
        Some(Preamble::X)
    } else if matches_pattern(cells, index, Preamble::Y) {
        Some(Preamble::Y)
    } else if matches_pattern(cells, index, Preamble::Z) {
        Some(Preamble::Z)
    } else {
        None
    }
}

/// Classify the eight-half-cell window starting at `index`.
///
/// Valid half-cells never contain a run of three equal levels outside a
/// preamble. Malformed headers retain at least that property, including
/// four-half-period violations, while carrying none of the recognized
/// eight-state patterns. The caller is responsible for only using an
/// unrecognized classification at a position that belongs to a framing
/// sequence.
pub fn classify_header(cells: &Vec<(u64, bool)>, index: usize) -> (header: Option<HeaderKind>)
    ensures
        header == (match preamble_at(cells@, index as int) {
            Some(preamble) => Some(HeaderKind::Standard(preamble)),
            None => if unknown_at(cells@, index as int) {
                Some(HeaderKind::Unknown)
            } else {
                None
            },
        }),
{
    if index > cells.len() || cells.len() - index < 8 {
        return None;
    }
    match match_preamble(cells, index) {
        Some(preamble) => Some(HeaderKind::Standard(preamble)),
        None => {
            let level = cells[index].1;
            if index > 0 && cells[index - 1].1 == level {
                None
            } else if cells[index + 1].1 == level && cells[index + 2].1 == level {
                Some(HeaderKind::Unknown)
            } else {
                None
            }
        },
    }
}

/// Decode the 28 slots after the eight-half-cell framing header at `index`.
pub fn parse_subframe(
    cells: &Vec<(u64, bool)>,
    index: usize,
    half_period: Option<u64>,
    header: HeaderKind,
    channel: Option<u8>,
) -> (subframe: Subframe)
    requires
        index + 64 <= cells.len(),
    ensures
        subframe@ == subframe_at(cells@, half_period, index as int, header, channel),
{
    let mut bits = [false; 28];
    let mut k: usize = 0;
    while k < 28
        invariant
            k <= 28,
            index + 64 <= cells.len(),
            forall|j: int|
                0 <= j < k ==> #[trigger] bits@[j] == (cells@[index + 8 + 2 * j].1 != cells@[index
                    + 9 + 2 * j].1),
        decreases 28 - k,
    {
        bits[k] = cells[index + 8 + 2 * k].1 != cells[index + 9 + 2 * k].1;
        k += 1;
    }
    assert(bits@ =~= slots_at(cells@, index as int));
    let last = cells[index + 63].0;
    let end = match half_period {
        Some(half_period) => last.saturating_add(half_period),
        None => if index + 64 < cells.len() {
            cells[index + 64].0
        } else {
            last
        },
    };
    Subframe { header, channel, bits, start: cells[index].0, end }
}

/// Whether every subframe is on channel 0, on channel 1, or on none.
pub open spec fn channels_known(subframes: Seq<SubframeView>) -> bool {
    forall|i: int|
        0 <= i < subframes.len() ==> ((#[trigger] subframes[i]).channel matches Some(channel)
            ==> channel <= 1)
}

proof fn leading_up_channels(
    cells: Seq<(u64, bool)>,
    half_period: Option<u64>,
    candidates: Seq<int>,
    anchor: int,
    channel: u8,
)
    requires
        channel <= 1,
    ensures
        channels_known(leading_up(cells, half_period, candidates, anchor, channel)),
    decreases anchor,
{
    if anchor >= 64 && candidates.contains(anchor - 64) {
        leading_up_channels(cells, half_period, candidates, anchor - 64, other_channel(channel));
    }
}

proof fn unanchored_channels(
    cells: Seq<(u64, bool)>,
    half_period: Option<u64>,
    candidates: Seq<int>,
    n: nat,
)
    ensures
        channels_known(unanchored(cells, half_period, candidates, n)),
    decreases n,
{
    if n > 0 {
        unanchored_channels(cells, half_period, candidates, (n - 1) as nat);
    }
}

proof fn scan_channels(
    cells: Seq<(u64, bool)>,
    half_period: Option<u64>,
    index: int,
    expected: Option<u8>,
    candidates: Seq<int>,
)
    requires
        expected matches Some(channel) ==> channel <= 1,
    ensures
        channels_known(scan(cells, half_period, index, expected, candidates)),
    decreases cells.len() - index,
{
    if index + 64 > cells.len() {
        unanchored_channels(cells, half_period, candidates, candidates.len());
    } else {
        match (preamble_at(cells, index), expected) {
            (Some(preamble), _) => {
                let channel = preamble_channel(preamble);
                leading_up_channels(cells, half_period, candidates, index, channel);
                scan_channels(
                    cells,
                    half_period,
                    index + 64,
                    Some(other_channel(channel)),
                    Seq::empty(),
                );
            },
            (None, Some(channel)) if unknown_at(cells, index) => {
                scan_channels(
                    cells,
                    half_period,
                    index + 64,
                    Some(other_channel(channel)),
                    candidates,
                );
            },
            _ => {
                scan_channels(
                    cells,
                    half_period,
                    index + 1,
                    None,
                    if unknown_at(cells, index) {
                        candidates.push(index)
                    } else {
                        candidates
                    },
                );
            },
        }
    }
}

/// Every subframe of a stream is on one of the two channels, or on none that is
/// known.
pub proof fn subframes_have_channels(cells: Seq<(u64, bool)>, half_period: Option<u64>)
    ensures
        channels_known(subframes_of(cells, half_period)),
{
    scan_channels(cells, half_period, 0, None, Seq::empty());
}

/// Positions in a list, as integers.
pub open spec fn positions(indices: Seq<usize>) -> Seq<int> {
    Seq::new(indices.len(), |i: int| indices[i] as int)
}

/// Whether positions are in ascending order.
pub open spec fn ascending(candidates: Seq<int>) -> bool {
    forall|i: int, j: int|
        0 <= i < j < candidates.len() ==> (#[trigger] candidates[i]) < (#[trigger] candidates[j])
}

/// The unrecognized headers among the first `n` candidates that lead up to the
/// header at `anchor`: from the last candidate to the first, each one that lies
/// 64 half-cells before the header reached last is taken, on the other channel.
pub open spec fn flushed(
    cells: Seq<(u64, bool)>,
    half_period: Option<u64>,
    candidates: Seq<int>,
    n: nat,
    anchor: int,
    channel: u8,
) -> Seq<SubframeView>
    decreases n,
{
    if n == 0 {
        Seq::empty()
    } else if anchor >= 64 && candidates[n - 1] == anchor - 64 {
        let before = other_channel(channel);
        flushed(cells, half_period, candidates, (n - 1) as nat, anchor - 64, before).push(
            subframe_at(cells, half_period, anchor - 64, HeaderKind::Unknown, Some(before)),
        )
    } else {
        flushed(cells, half_period, candidates, (n - 1) as nat, anchor, channel)
    }
}

/// Candidates in ascending order lead up to a header without a gap as long as
/// there is one 64 half-cells before the last.
pub proof fn flushed_is_leading_up(
    cells: Seq<(u64, bool)>,
    half_period: Option<u64>,
    candidates: Seq<int>,
    n: nat,
    anchor: int,
    channel: u8,
)
    requires
        ascending(candidates),
        n <= candidates.len(),
        forall|k: int| n <= k < candidates.len() ==> (#[trigger] candidates[k]) > anchor - 64,
    ensures
        flushed(cells, half_period, candidates, n, anchor, channel) == leading_up(
            cells,
            half_period,
            candidates,
            anchor,
            channel,
        ),
    decreases n,
{
    if n == 0 {
        assert(!candidates.contains(anchor - 64));
    } else {
        let last = candidates[n - 1];
        if anchor >= 64 && last == anchor - 64 {
            assert(candidates.contains(anchor - 64));
            assert forall|k: int| n - 1 <= k < candidates.len() implies (#[trigger] candidates[k])
                > anchor - 64 - 64 by {
                if k >= n {
                    assert(candidates[k] > anchor - 64);
                }
            }
            flushed_is_leading_up(
                cells,
                half_period,
                candidates,
                (n - 1) as nat,
                anchor - 64,
                other_channel(channel),
            );
        } else if last > anchor - 64 {
            flushed_is_leading_up(
                cells,
                half_period,
                candidates,
                (n - 1) as nat,
                anchor,
                channel,
            );
        } else {
            assert forall|k: int| 0 <= k < candidates.len() implies anchor < 64
                || #[trigger] candidates[k] != anchor - 64 by {
                if k < n - 1 {
                    assert(candidates[k] < candidates[n - 1]);
                }
            }
            none_is_taken(cells, half_period, candidates, (n - 1) as nat, anchor, channel);
        }
    }
}

proof fn none_is_taken(
    cells: Seq<(u64, bool)>,
    half_period: Option<u64>,
    candidates: Seq<int>,
    n: nat,
    anchor: int,
    channel: u8,
)
    requires
        n <= candidates.len(),
        forall|k: int|
            0 <= k < n ==> anchor < 64 || (#[trigger] candidates[k]) != anchor - 64,
    ensures
        flushed(cells, half_period, candidates, n, anchor, channel) == Seq::<SubframeView>::empty(),
    decreases n,
{
    if n > 0 {
        assert(anchor < 64 || candidates[n - 1] != anchor - 64);
        none_is_taken(cells, half_period, candidates, (n - 1) as nat, anchor, channel);
    }
}

fn flip(channel: u8) -> (other: u8)
    ensures
        other == other_channel(channel),
{
    if channel % 2 == 0 {
        channel + 1
    } else {
        channel - 1
    }
}

/// Assign channels to the unknown candidate headers that form an unbroken
/// 64-half-cell cadence immediately before a recognized header.
pub fn flush_preceding_unknowns(
    cells: &Vec<(u64, bool)>,
    half_period: Option<u64>,
    candidates: &Vec<usize>,
    anchor: usize,
    channel: u8,
) -> (events: Vec<Subframe>)
    requires
        positions(candidates@).contains(anchor - 64) ==> anchor <= cells.len(),
    ensures
        subframe_views(events@) == flushed(
            cells@,
            half_period,
            positions(candidates@),
            candidates@.len(),
            anchor as int,
            channel,
        ),
{
    let ghost all = positions(candidates@);
    let mut reversed: Vec<Subframe> = Vec::new();
    let mut next_index: usize = anchor;
    let mut next_channel: u8 = channel;
    let mut i: usize = candidates.len();
    let ghost whole = flushed(cells@, half_period, all, all.len(), anchor as int, channel);
    proof {
        assert(whole + subframe_views(reversed@).reverse() =~= whole);
    }
    while i > 0
        invariant
            all == positions(candidates@),
            i <= candidates.len(),
            all.contains(anchor - 64) ==> anchor <= cells.len(),
            next_index == anchor || next_index + 64 <= cells.len(),
            flushed(cells@, half_period, all, i as nat, next_index as int, next_channel)
                + subframe_views(reversed@).reverse() == whole,
        decreases i,
    {
        i -= 1;
        let index = candidates[i];
        let ghost seen = subframe_views(reversed@);
        assert(all[i as int] == index);
        if next_index >= 64 && index == next_index - 64 {
            assert(next_index == anchor ==> all.contains(anchor - 64));
            next_channel = flip(next_channel);
            let event = parse_subframe(
                cells,
                index,
                half_period,
                HeaderKind::Unknown,
                HeaderKind::Unknown.channel(Some(next_channel)),
            );
            reversed.push(event);
            next_index = index;
            proof {
                assert(subframe_views(reversed@) =~= seen.push(event@));
                assert(seen.push(event@).reverse() =~= seq![event@] + seen.reverse());
                let lead = flushed(
                    cells@,
                    half_period,
                    all,
                    i as nat,
                    index as int,
                    next_channel,
                );
                assert(lead.push(event@) + seen.reverse() =~= lead + (seq![event@]
                    + seen.reverse()));
            }
        }
    }
    let mut events: Vec<Subframe> = Vec::new();
    let mut k: usize = reversed.len();
    let ghost back = subframe_views(reversed@).reverse();
    assert(Seq::<SubframeView>::empty() + back =~= back);
    assert(back == whole);
    while k > 0
        invariant
            k <= reversed.len(),
            back == subframe_views(reversed@).reverse(),
            subframe_views(events@) == back.take(reversed.len() - k),
        decreases k,
    {
        k -= 1;
        let ghost so_far = subframe_views(events@);
        events.push(reversed[k]);
        proof {
            assert(subframe_views(events@) =~= so_far.push(reversed@[k as int]@));
            assert(back[reversed@.len() - 1 - k] == reversed@[k as int]@);
            assert(back.take(reversed@.len() - k) =~= so_far.push(back[reversed@.len() - 1 - k]));
        }
    }
    assert(back.take(reversed.len() as int) =~= back);
    events
}

/// Label runs of unknown candidate headers when no recognized header locks
/// the stream, without assigning their channels. A single isolated candidate
/// is not enough evidence to begin decoding them.
pub fn commit_unanchored_unknowns(
    cells: &Vec<(u64, bool)>,
    half_period: Option<u64>,
    candidates: &Vec<usize>,
) -> (subframes: Vec<Subframe>)
    requires
        forall|i: int|
            0 <= i < candidates.len() ==> (#[trigger] candidates@[i]) + 64 <= usize::MAX,
        forall|i: int|
            0 <= i < candidates.len() && #[trigger] in_cadence(positions(candidates@), i)
                ==> candidates@[i] + 64 <= cells.len(),
    ensures
        subframe_views(subframes@) == unanchored(
            cells@,
            half_period,
            positions(candidates@),
            candidates@.len(),
        ),
{
    let ghost all = positions(candidates@);
    let mut subframes: Vec<Subframe> = Vec::new();
    let mut i: usize = 0;
    assert(subframe_views(subframes@) =~= unanchored(cells@, half_period, all, 0));
    while i < candidates.len()
        invariant
            all == positions(candidates@),
            i <= candidates.len(),
            forall|k: int|
                0 <= k < candidates.len() ==> (#[trigger] candidates@[k]) + 64 <= usize::MAX,
            forall|k: int|
                0 <= k < candidates.len() && #[trigger] in_cadence(all, k) ==> candidates@[k] + 64
                    <= cells.len(),
            subframe_views(subframes@) == unanchored(cells@, half_period, all, i as nat),
        decreases candidates.len() - i,
    {
        let index = candidates[i];
        assert(all[i as int] == index);
        if (i > 0 && candidates[i - 1] + 64 == index) || (i + 1 < candidates.len() && index + 64
            == candidates[i + 1]) {
            assert(in_cadence(all, i as int));
            subframes.push(
                parse_subframe(
                    cells,
                    index,
                    half_period,
                    HeaderKind::Unknown,
                    HeaderKind::Unknown.channel(None),
                ),
            );
        }
        assert(subframe_views(subframes@) =~= unanchored(cells@, half_period, all, (i + 1) as nat));
        i += 1;
    }
    subframes
}

/// Scan the half-cell stream for preambles and decode the 28 data bits after
/// each one.
///
/// Recognized headers determine their own channel. An unrecognized header is
/// parsed exactly like a standard one, but only when it lies where framing
/// says a header belongs: immediately before or after a neighboring
/// recognized header, or as part of a repeated 64-half-cell cadence.
/// Unrecognized headers outside such a sequence are ignored so that a single
/// ambiguous timing artifact cannot become a diagnosis.
///
/// `half_period` is the recovered half-bit period when the bit clock was
/// recovered from the data, and `None` when an explicit bit clock was
/// sampled; it is used to give the last subframe an end time.
pub fn find_subframes(cells: &Vec<(u64, bool)>, half_period: Option<u64>) -> (subframes: Vec<
    Subframe,
>)
    ensures
        subframe_views(subframes@) == subframes_of(cells@, half_period),
{
    let mut subframes: Vec<Subframe> = Vec::new();
    let mut candidates: Vec<usize> = Vec::new();
    let mut index: usize = 0;
    let mut expected: Option<u8> = None;
    proof {
        assert(positions(candidates@) =~= Seq::<int>::empty());
        assert(subframe_views(subframes@) + subframes_of(cells@, half_period) =~= subframes_of(
            cells@,
            half_period,
        ));
    }
    while index <= cells.len() && cells.len() - index >= 64
        invariant
            index <= cells.len(),
            ascending(positions(candidates@)),
            forall|i: int|
                0 <= i < candidates.len() ==> (#[trigger] candidates@[i]) < index && candidates@[i]
                    + 64 <= cells.len(),
            subframe_views(subframes@) + scan(
                cells@,
                half_period,
                index as int,
                expected,
                positions(candidates@),
            ) == subframes_of(cells@, half_period),
        decreases cells.len() - index,
    {
        let ghost done = subframe_views(subframes@);
        let ghost all = positions(candidates@);
        let ghost due = expected;
        match (classify_header(cells, index), expected) {
            (Some(HeaderKind::Standard(preamble)), _) => {
                let header = HeaderKind::Standard(preamble);
                let channel: u8 = if preamble == Preamble::Y {
                    1
                } else {
                    0
                };
                let mut events = flush_preceding_unknowns(
                    cells,
                    half_period,
                    &candidates,
                    index,
                    channel,
                );
                let ghost lead = subframe_views(events@);
                proof {
                    flushed_is_leading_up(
                        cells@,
                        half_period,
                        all,
                        all.len(),
                        index as int,
                        channel,
                    );
                }
                let subframe = parse_subframe(cells, index, half_period, header, header.channel(None));
                subframes.append(&mut events);
                subframes.push(subframe);
                candidates = Vec::new();
                expected = Some(flip(channel));
                proof {
                    assert(positions(candidates@) =~= Seq::<int>::empty());
                    assert(subframe_views(subframes@) =~= done + lead.push(subframe@));
                    let rest = scan(
                        cells@,
                        half_period,
                        index + 64,
                        expected,
                        Seq::empty(),
                    );
                    assert(done + (lead.push(subframe@) + rest) =~= (done + lead.push(subframe@))
                        + rest);
                }
                index += 64;
            },
            (Some(HeaderKind::Unknown), Some(channel)) => {
                let subframe = parse_subframe(
                    cells,
                    index,
                    half_period,
                    HeaderKind::Unknown,
                    HeaderKind::Unknown.channel(Some(channel)),
                );
                subframes.push(subframe);
                expected = Some(flip(channel));
                proof {
                    assert(subframe_views(subframes@) =~= done.push(subframe@));
                    let rest = scan(cells@, half_period, index + 64, expected, all);
                    assert(done + (seq![subframe@] + rest) =~= done.push(subframe@) + rest);
                }
                index += 64;
            },
            (header, _) => {
                expected = None;
                if header == Some(HeaderKind::Unknown) {
                    candidates.push(index);
                    assert(positions(candidates@) =~= all.push(index as int));
                }
                index += 1;
            },
        }
    }
    let mut rest = commit_unanchored_unknowns(cells, half_period, &candidates);
    let ghost done = subframe_views(subframes@);
    let ghost tail = subframe_views(rest@);
    subframes.append(&mut rest);
    assert(subframe_views(subframes@) =~= done + tail);
    subframes
}

} // verus!
