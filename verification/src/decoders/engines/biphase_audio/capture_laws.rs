//! What holds of a stream whose capture begins with an idle line, or whose
//! transitions jitter.
use vstd::prelude::*;
use crate::decoders::engines::biphase_audio;
use crate::decoders::engines::biphase_audio::clock_recovery;
#[allow(unused_imports)]
use crate::decoders::engines::biphase_audio::framing::SubframeView;
use crate::decoders::engines::biphase_audio::half_cells;
use crate::decoders::engines::biphase_audio::line_laws;
use crate::decoders::engines::biphase_audio::rows;
use crate::decoders::engines::biphase_audio::stream_laws;
use crate::decoders::engines::biphase_audio::stream_laws::Sent;
use crate::decoders::engines::biphase_audio::ParamsView;
#[allow(unused_imports)]
use crate::decoders::error::ErrorView;
use crate::decoders::input;
use crate::decoders::input::SignalView;
#[allow(unused_imports)]
use crate::decoders::value::RowView;

verus! {

/// Whether a time is at most half a half period early, and less than half a
/// half period late.
pub open spec fn is_near(time: u64, nominal: int, half_period: u64) -> bool {
    0 <= time - nominal + half_period / 2 < half_period
}

/// Whether a line is the one that a stream is sent on, but for jitter: it has
/// the same transitions, each of them near its time.
pub open spec fn jitters(
    line: Seq<(u64, bool)>,
    stream: Seq<Sent>,
    start: u64,
    half_period: u64,
) -> bool {
    let sent = stream_laws::line_sent(
        stream_laws::stream_levels(stream),
        start,
        half_period,
    );
    &&& line.len() == sent.len()
    &&& line[0].0 == start
    &&& forall|i: int| 0 <= i < line.len() ==> (#[trigger] line[i]).1 == sent[i].1
    &&& forall|i: int|
        0 <= i < line.len() ==> is_near((#[trigger] line[i]).0, sent[i].0 as int, half_period)
}

proof fn moved_cells(
    line: Seq<(u64, bool)>,
    sent: Seq<(u64, bool)>,
    places: Seq<nat>,
    half_period: u64,
    n: nat,
)
    requires
        n < line.len(),
        line.len() == sent.len(),
        forall|i: int| 0 <= i < line.len() ==> (#[trigger] line[i]).1 == sent[i].1,
        forall|i: int|
            0 <= i < line.len() ==> is_near((#[trigger] line[i]).0, sent[i].0 as int, half_period),
    ensures
        ({
            let moved = line_laws::cells_by_place(line, places, half_period, n);
            let exact = line_laws::cells_by_place(sent, places, half_period, n);
            &&& moved.len() == exact.len()
            &&& forall|i: int|
                0 <= i < moved.len() ==> (#[trigger] moved[i]).1 == exact[i].1 && (exact[i].0
                    + half_period <= u64::MAX ==> is_near(
                    moved[i].0,
                    exact[i].0 as int,
                    half_period,
                ))
        }),
    decreases n,
{
    if n > 0 {
        moved_cells(line, sent, places, half_period, (n - 1) as nat);
        let count = (places[n as int] - places[n - 1]) as nat;
        let a = half_cells::run(line[n - 1].0, line[n - 1].1, count, half_period);
        let b = half_cells::run(sent[n - 1].0, sent[n - 1].1, count, half_period);
        assert(is_near(line[n - 1].0, sent[n - 1].0 as int, half_period));
        assert forall|k: int| 0 <= k < count implies (#[trigger] a[k]).1 == b[k].1 && (b[k].0
            + half_period <= u64::MAX ==> is_near(a[k].0, b[k].0 as int, half_period)) by {
            assert(k * half_period >= 0) by (nonlinear_arith)
                requires
                    k >= 0,
            ;
        }
    }
}

/// Jitter of less than half a half period does not change the half-cells of a
/// stream, and each of them begins near its time.
pub proof fn jitter_keeps_levels(
    line: Seq<(u64, bool)>,
    stream: Seq<Sent>,
    start: u64,
    half_period: u64,
)
    requires
        stream.len() > 0,
        stream_laws::times_fit(start, half_period, 64 * stream.len() as int),
        jitters(line, stream, start, half_period),
    ensures
        ({
            let cells = half_cells::cells_of(line, half_period, (line.len() - 1) as nat);
            &&& stream_laws::carries(cells, stream_laws::stream_levels(stream))
            &&& forall|i: int|
                0 <= i < cells.len() ==> is_near(
                    (#[trigger] cells[i]).0,
                    start + i * half_period,
                    half_period,
                )
        }),
{
    let levels = stream_laws::stream_levels(stream);
    let sent = stream_laws::line_sent(levels, start, half_period);
    let places = stream_laws::places_of(sent, half_period);
    stream_laws::stream_has_clean_gaps(stream, start, half_period);
    stream_laws::sent_line_is_exact(levels, start, half_period);
    let n = (line.len() - 1) as nat;
    assert forall|i: int| 0 <= i < line.len() implies 0 <= #[trigger] line[i].0 - line[0].0
        - places[i] * half_period + half_period / 2 < half_period by {
        assert(is_near(line[i].0, sent[i].0 as int, half_period));
        assert(sent[i].0 - start == places[i] * half_period);
    }
    assert forall|i: int| 0 <= i < line.len() implies (#[trigger] line[i].0) - line[0].0
        + half_period / 2 <= u64::MAX by {
        assert(start >= half_period / 2 || line[i].0 + half_period / 2 <= u64::MAX) by {
            sent_in_time(stream, start, half_period, i);
            assert(is_near(line[i].0, sent[i].0 as int, half_period));
        }
    }
    assert forall|i: int| 0 <= i < line.len() - 1 implies #[trigger] line_laws::no_break(
        line,
        half_period,
        i,
    ) by {
        assert(is_near(line[i].0, sent[i].0 as int, half_period));
        assert(is_near(line[i + 1].0, sent[i + 1].0 as int, half_period));
        assert(stream_laws::clean_gap(sent, half_period, i));
    }
    assert(places[0] == 0) by {
        assert(line_laws::on_grid(sent, places, half_period));
    }
    line_laws::jitter_keeps_cells(line, places, half_period, n);
    moved_cells(line, sent, places, half_period, n);
    let cells = half_cells::cells_of(line, half_period, n);
    let exact = stream_laws::cells_sent(levels, start, half_period);
    assert forall|i: int| 0 <= i < cells.len() implies is_near(
        (#[trigger] cells[i]).0,
        start + i * half_period,
        half_period,
    ) by {
        stream_laws::time_grows(start, half_period, 64 * stream.len() as int, i);
        assert(exact[i].0 == start + i * half_period);
    }
    assert forall|i: int| 0 <= i < cells.len() implies (#[trigger] cells[i]).1 == levels[i] by {
        assert(exact[i].1 == levels[i]);
    }
}

/// Whether subframes begin and end near the times at which they were sent.
pub open spec fn are_near(
    found: Seq<SubframeView>,
    sent: Seq<SubframeView>,
    half_period: u64,
) -> bool {
    &&& found.len() == sent.len()
    &&& forall|k: int|
        0 <= k < found.len() ==> {
            &&& (#[trigger] found[k]).header == sent[k].header
            &&& found[k].channel == sent[k].channel
            &&& found[k].bits == sent[k].bits
            &&& is_near(found[k].start, sent[k].start as int, half_period)
            &&& is_near(found[k].end, sent[k].end as int, half_period)
        }
}

/// The subframes that a line is decoded to which carries a stream.
pub open spec fn subframes_of_line(
    line: Seq<(u64, bool)>,
    stream: Seq<Sent>,
    half_period: u64,
) -> Seq<SubframeView> {
    stream_laws::subframes_timed(
        stream,
        half_cells::cells_of(line, half_period, (line.len() - 1) as nat),
        Some(half_period),
    )
}

proof fn subframes_are_near(
    line: Seq<(u64, bool)>,
    stream: Seq<Sent>,
    start: u64,
    half_period: u64,
)
    requires
        stream.len() > 0,
        stream_laws::times_fit(start, half_period, 64 * stream.len() as int),
        jitters(line, stream, start, half_period),
    ensures
        are_near(
            subframes_of_line(line, stream, half_period),
            stream_laws::subframes_sent(stream, start, half_period, false),
            half_period,
        ),
{
    jitter_keeps_levels(line, stream, start, half_period);
    let cells = half_cells::cells_of(line, half_period, (line.len() - 1) as nat);
    let found = subframes_of_line(line, stream, half_period);
    let sent = stream_laws::subframes_sent(stream, start, half_period, false);
    let n = 64 * stream.len() as int;
    assert forall|k: int| 0 <= k < found.len() implies is_near(
        (#[trigger] found[k]).start,
        sent[k].start as int,
        half_period,
    ) && is_near(found[k].end, sent[k].end as int, half_period) by {
        stream_laws::time_grows(start, half_period, n, 64 * k);
        stream_laws::time_grows(start, half_period, n, 64 * k + 64);
        assert((64 * k + 64) * half_period == (64 * k + 63) * half_period + half_period)
            by (nonlinear_arith);
        assert(is_near(cells[64 * k].0, start + (64 * k) * half_period, half_period));
        assert(is_near(cells[64 * k + 63].0, start + (64 * k + 63) * half_period, half_period));
    }
}

/// A stream whose transitions jitter is decoded to exactly its subframes, where
/// its half period is recovered: every preamble is found, and every bit is read
/// as it was sent, within half a half period of its time.
pub proof fn jittering_stream_is_decoded(
    params: ParamsView,
    inputs: Seq<SignalView>,
    line: Seq<(u64, bool)>,
    stream: Seq<Sent>,
    start: u64,
    half_period: u64,
)
    requires
        stream.len() > 0,
        stream_laws::well_formed(stream),
        stream_laws::times_fit(start, half_period, 64 * stream.len() as int),
        jitters(line, stream, start, half_period),
        clock_recovery::half_period_of(half_cells::gaps_of(line)) == Some(half_period),
        stream_laws::shows_line(inputs, params.data, line),
        input::input_for(inputs, params.bitclk, 0) is None,
    ensures
        biphase_audio::decoded_rows(params, inputs) == Ok::<Seq<RowView>, ErrorView>(
            rows::rows_of(params, subframes_of_line(line, stream, half_period)),
        ),
        are_near(
            subframes_of_line(line, stream, half_period),
            stream_laws::subframes_sent(stream, start, half_period, false),
            half_period,
        ),
{
    let cells = half_cells::cells_of(line, half_period, (line.len() - 1) as nat);
    sent_has_transitions(stream, start, half_period);
    jitter_keeps_levels(line, stream, start, half_period);
    subframes_are_near(line, stream, start, half_period);
    stream_laws::subframes_are_found(stream, cells, Some(half_period));
    assert(subframes_of_line(line, stream, half_period).len() == stream.len());
}

/// A stream whose transitions jitter is decoded to the same subframes behind an
/// idle line, where its half period is recovered.
pub proof fn jittering_stream_after_idle_is_decoded(
    params: ParamsView,
    inputs: Seq<SignalView>,
    idle: (u64, bool),
    line: Seq<(u64, bool)>,
    stream: Seq<Sent>,
    start: u64,
    half_period: u64,
)
    requires
        stream.len() > 0,
        stream_laws::well_formed(stream),
        stream_laws::times_fit(start, half_period, 64 * stream.len() as int),
        jitters(line, stream, start, half_period),
        start - idle.0 > 4 * half_period,
        clock_recovery::half_period_of(half_cells::gaps_of(seq![idle] + line)) == Some(half_period),
        stream_laws::shows_line(inputs, params.data, seq![idle] + line),
        input::input_for(inputs, params.bitclk, 0) is None,
    ensures
        biphase_audio::decoded_rows(params, inputs) == Ok::<Seq<RowView>, ErrorView>(
            rows::rows_of(params, subframes_of_line(line, stream, half_period)),
        ),
        are_near(
            subframes_of_line(line, stream, half_period),
            stream_laws::subframes_sent(stream, start, half_period, false),
            half_period,
        ),
{
    let n = (line.len() - 1) as nat;
    let cells = half_cells::cells_of(line, half_period, n);
    sent_has_transitions(stream, start, half_period);
    jitter_keeps_levels(line, stream, start, half_period);
    subframes_are_near(line, stream, start, half_period);
    stream_laws::subframes_are_found(stream, cells, Some(half_period));
    line_laws::idle_lead_in_has_no_cells(idle, line, half_period, n);
    assert((seq![idle] + line).len() == n + 2);
    assert(subframes_of_line(line, stream, half_period).len() == stream.len());
}

proof fn sent_has_transitions(stream: Seq<Sent>, start: u64, half_period: u64)
    requires
        stream.len() > 0,
        stream_laws::times_fit(start, half_period, 64 * stream.len() as int),
    ensures
        stream_laws::line_sent(stream_laws::stream_levels(stream), start, half_period).len() > 1,
{
    stream_laws::stream_has_clean_gaps(stream, start, half_period);
    stream_laws::sent_line_is_exact(stream_laws::stream_levels(stream), start, half_period);
}

/// The line that a stream is sent on is never later than the end of its last
/// half-cell.
proof fn sent_in_time(stream: Seq<Sent>, start: u64, half_period: u64, i: int)
    requires
        stream.len() > 0,
        stream_laws::times_fit(start, half_period, 64 * stream.len() as int),
        0 <= i < stream_laws::line_sent(
            stream_laws::stream_levels(stream),
            start,
            half_period,
        ).len(),
    ensures
        stream_laws::line_sent(stream_laws::stream_levels(stream), start, half_period)[i].0
            + half_period <= u64::MAX,
{
    let levels = stream_laws::stream_levels(stream);
    let line = stream_laws::line_sent(levels, start, half_period);
    stream_laws::stream_has_clean_gaps(stream, start, half_period);
    stream_laws::sent_line_is_exact(levels, start, half_period);
    stream_laws::exact_to_end(line, half_period, i);
    stream_laws::time_grows(
        start,
        half_period,
        64 * stream.len() as int,
        64 * stream.len() as int,
    );
}

/// The half period of a stream is recovered behind an idle line that lasts more
/// than twelve half periods, however long the stream is.
pub proof fn idle_line_keeps_half_period(
    idle: (u64, bool),
    stream: Seq<Sent>,
    start: u64,
    half_period: u64,
)
    requires
        stream.len() > 0,
        stream_laws::times_fit(start, half_period, 64 * stream.len() as int),
        start - idle.0 > 12 * half_period + 2,
    ensures
        clock_recovery::half_period_of(
            half_cells::gaps_of(
                seq![idle] + stream_laws::line_sent(
                    stream_laws::stream_levels(stream),
                    start,
                    half_period,
                ),
            ),
        ) == Some(half_period),
{
    let line = stream_laws::line_sent(
        stream_laws::stream_levels(stream),
        start,
        half_period,
    );
    let longer = seq![idle] + line;
    let gaps = half_cells::gaps_of(line);
    let first = (start - idle.0) as u64;
    stream_laws::stream_has_clean_gaps(stream, start, half_period);
    stream_laws::sent_line_is_exact(stream_laws::stream_levels(stream), start, half_period);
    line_laws::idle_stream_is_stream(first, gaps, half_period);
    assert forall|i: int| 0 <= i < longer.len() - 1 implies #[trigger] half_cells::gaps_of(
        longer,
    )[i] == (seq![first] + gaps)[i] by {
        if i > 0 {
            assert(longer[i] == line[i - 1] && longer[i + 1] == line[i]);
        }
    }
    assert(half_cells::gaps_of(longer) =~= seq![first] + gaps);
    line_laws::stream_tells_half_period(seq![first] + gaps, half_period);
}

proof fn idle_line_is_recovered(
    idle: (u64, bool),
    stream: Seq<Sent>,
    start: u64,
    half_period: u64,
)
    requires
        stream.len() > 0,
        stream_laws::times_fit(start, half_period, 64 * stream.len() as int),
        start - idle.0 > 4 * half_period,
        clock_recovery::half_period_of(
            half_cells::gaps_of(
                seq![idle] + stream_laws::line_sent(
                    stream_laws::stream_levels(stream),
                    start,
                    half_period,
                ),
            ),
        ) == Some(half_period),
    ensures
        half_cells::recovered(
            seq![idle] + stream_laws::line_sent(
                stream_laws::stream_levels(stream),
                start,
                half_period,
            ),
        ) == half_cells::recovered(
            stream_laws::line_sent(stream_laws::stream_levels(stream), start, half_period),
        ),
{
    let line = stream_laws::line_sent(stream_laws::stream_levels(stream), start, half_period);
    stream_laws::stream_has_clean_gaps(stream, start, half_period);
    stream_laws::sent_line_is_exact(stream_laws::stream_levels(stream), start, half_period);
    line_laws::stream_tells_half_period(half_cells::gaps_of(line), half_period);
    line_laws::idle_lead_in_has_no_cells(idle, line, half_period, (line.len() - 1) as nat);
    assert((seq![idle] + line).len() == line.len() + 1);
}

/// A stream that is sent behind an idle line is decoded to exactly its
/// subframes. The line may have been idle for any time of more than twelve half
/// periods, and for a shorter one of more than four where the half period is
/// still recovered.
pub proof fn stream_after_idle_is_decoded(
    params: ParamsView,
    inputs: Seq<SignalView>,
    idle: (u64, bool),
    stream: Seq<Sent>,
    start: u64,
    half_period: u64,
)
    requires
        stream.len() > 0,
        stream_laws::well_formed(stream),
        stream_laws::times_fit(start, half_period, 64 * stream.len() as int),
        start - idle.0 > 4 * half_period,
        start - idle.0 > 12 * half_period + 2 || clock_recovery::half_period_of(
            half_cells::gaps_of(
                seq![idle] + stream_laws::line_sent(
                    stream_laws::stream_levels(stream),
                    start,
                    half_period,
                ),
            ),
        ) == Some(half_period),
        stream_laws::shows_line(
            inputs,
            params.data,
            seq![idle] + stream_laws::line_sent(
                stream_laws::stream_levels(stream),
                start,
                half_period,
            ),
        ),
        input::input_for(inputs, params.bitclk, 0) is None,
    ensures
        biphase_audio::decoded_rows(params, inputs) == Ok::<Seq<RowView>, ErrorView>(
            rows::rows_of(params, stream_laws::subframes_sent(stream, start, half_period, false)),
        ),
{
    if start - idle.0 > 12 * half_period + 2 {
        idle_line_keeps_half_period(idle, stream, start, half_period);
    }
    idle_line_is_recovered(idle, stream, start, half_period);
    stream_laws::stream_is_recovered(stream, start, half_period);
    stream_laws::sent_subframes_are_found(stream, start, half_period, false);
    let found = stream_laws::subframes_sent(stream, start, half_period, false);
    assert(found.len() == stream.len());
}

} // verus!
