//! What running decoders without a window gives, and how it is printed.
use vstd::prelude::*;
use crate::cli;
use crate::decoders::cache;
use crate::decoders::error;
#[allow(unused_imports)]
use crate::decoders::error::ErrorView;
use crate::decoders::input;
use crate::decoders::input::WaveContainer;
use crate::decoders::value;
use crate::decoders::value::{ItemView, RowView, ValueFormat};
use crate::decoders::value_laws;
use crate::displayed::{DisplayedDecoder, DisplayedItem, DisplayedItemRef};
use crate::gtkwave;
use crate::gtkwave::{Directive, ReadError};
use crate::headless;
use crate::headless::{HeadlessErrorView, LoadedWaves, Observation, OutputView, Phase, RequestView};
use crate::message::{LoadOptions, MessageView};
use crate::text;

verus! {

/// The items that are decoders.
pub open spec fn decoders_among(items: Seq<(DisplayedItemRef, DisplayedItem)>) -> Seq<
    (DisplayedItemRef, DisplayedItem),
> {
    items.filter(|item: (DisplayedItemRef, DisplayedItem)| item.1 is Decoder)
}

/// The decoder that an item is.
pub open spec fn decoder_of(item: (DisplayedItemRef, DisplayedItem)) -> DisplayedDecoder {
    item.1->Decoder_0
}

/// The items that are decoders without a result.
pub open spec fn unfinished_among(items: Seq<(DisplayedItemRef, DisplayedItem)>) -> Seq<
    (DisplayedItemRef, DisplayedItem),
> {
    items.filter(
        |item: (DisplayedItemRef, DisplayedItem)|
            item.1 is Decoder && !(decoder_of(item).cache is Some && decoder_of(
                item,
            ).cache.unwrap().result() is Some),
    )
}

/// The pending decoders are those without a result, by their names and in their
/// order.
pub proof fn pending_decoders_are_unfinished(
    items: Seq<(DisplayedItemRef, DisplayedItem)>,
    n: nat,
)
    requires
        n <= items.len(),
    ensures
        ({
            let unfinished = unfinished_among(items.take(n as int));
            let names = headless::pending_among(items, n);
            &&& names.len() == unfinished.len()
            &&& forall|i: int|
                0 <= i < names.len() ==> #[trigger] names[i] == decoder_of(
                    unfinished[i],
                ).display_name@
        }),
    decreases n,
{
    reveal(Seq::filter);
    let taken = items.take(n as int);
    if n > 0 {
        pending_decoders_are_unfinished(items, (n - 1) as nat);
        assert(taken.drop_last() =~= items.take(n - 1));
        assert(taken.last() == items[n - 1]);
    }
}

/// Whether an output is what a decoder gave, under the decoder's names and in its
/// format.
pub open spec fn is_output_of(output: OutputView, decoder: DisplayedDecoder) -> bool {
    &&& decoder.cache matches Some(entry) && entry.result() matches Some(Ok(data)) && output.rows
        == data@
    &&& output.decoder == decoder.decoder@
    &&& output.display_name == decoder.display_name@
    &&& output.value_format == decoder.value_format
}

/// Every decoder gives one output, in the order of the items. Where one gave
/// nothing, the error names it: it was not asked, it failed, or it is not ready.
pub proof fn every_decoder_gives_its_output(
    items: Seq<(DisplayedItemRef, DisplayedItem)>,
    n: nat,
)
    requires
        n <= items.len(),
    ensures
        match headless::outputs_of(items, n) {
            Ok(outputs) => {
                let decoders = decoders_among(items.take(n as int));
                &&& outputs.len() == decoders.len()
                &&& forall|i: int|
                    0 <= i < outputs.len() ==> is_output_of(
                        #[trigger] outputs[i],
                        decoder_of(decoders[i]),
                    )
            },
            Err(fault) => exists|i: int|
                0 <= i < n && (#[trigger] items[i]).1 is Decoder && tells(
                    fault,
                    decoder_of(items[i]),
                ),
        },
    decreases n,
{
    reveal(Seq::filter);
    let taken = items.take(n as int);
    if n > 0 {
        every_decoder_gives_its_output(items, (n - 1) as nat);
        assert(taken.drop_last() =~= items.take(n - 1));
        assert(taken.last() == items[n - 1]);
        if let Err(fault) = headless::outputs_of(items, n) {
            if headless::outputs_of(items, (n - 1) as nat) is Ok {
                assert(items[n - 1].1 is Decoder && tells(fault, decoder_of(items[n - 1])));
            }
        }
    }
}

/// Whether an error says why a decoder gave nothing.
pub open spec fn tells(fault: HeadlessErrorView, decoder: DisplayedDecoder) -> bool {
    match fault {
        HeadlessErrorView::NoCache { name } => decoder.cache is None && name
            == decoder.display_name@,
        HeadlessErrorView::Failed { name, reason } => {
            &&& decoder.cache matches Some(entry) && entry.result() matches Some(Err(words))
                && reason == words@
            &&& name == decoder.display_name@
        },
        HeadlessErrorView::StillBuilding { name } => {
            &&& decoder.cache matches Some(entry) && entry.result() is None
            &&& name == decoder.display_name@
        },
        _ => false,
    }
}

/// Every decoder is asked once, in the order of the items: with its own settings,
/// and with the signals of its inputs in their order.
pub proof fn every_decoder_is_asked(
    waves: WaveContainer,
    items: Seq<(DisplayedItemRef, DisplayedItem)>,
    n: nat,
)
    requires
        n <= items.len(),
    ensures
        ({
            let decoders = decoders_among(items.take(n as int));
            let asked = headless::requests_of(waves, items, n);
            &&& asked.len() == decoders.len()
            &&& forall|i: int|
                0 <= i < asked.len() ==> asks(waves, #[trigger] asked[i], decoders[i])
        }),
    decreases n,
{
    reveal(Seq::filter);
    let taken = items.take(n as int);
    if n > 0 {
        every_decoder_is_asked(waves, items, (n - 1) as nat);
        assert(taken.drop_last() =~= items.take(n - 1));
        assert(taken.last() == items[n - 1]);
    }
}

/// Whether a request asks the decoder of an item.
pub open spec fn asks(
    waves: WaveContainer,
    request: RequestView,
    item: (DisplayedItemRef, DisplayedItem),
) -> bool {
    let decoder = decoder_of(item);
    &&& request.item == item.0
    &&& request.settings == decoder.settings@
    &&& request.signals.len() == decoder.inputs@.len()
    &&& forall|k: int|
        0 <= k < decoder.inputs@.len() ==> {
            let place = input::variable_index(
                waves.variables@,
                decoder.inputs@[k].variable_ref@,
                0,
            );
            place is Some ==> #[trigger] request.signals[k]
                == waves.variables@[place.unwrap()].signal
        }
}

/// The decoders are asked exactly where there is a waveform, every input is
/// there, and there is a decoder.
pub proof fn decoders_are_asked_for_a_reason(waves: LoadedWaves)
    ensures
        match headless::all_requests(Some(&waves)) {
            Ok(asked) => {
                &&& waves.container is Some
                &&& asked == headless::requests_of(
                    waves.container.unwrap(),
                    waves.displayed_items@,
                    waves.displayed_items@.len(),
                )
                &&& asked.len() > 0
            },
            Err(HeadlessErrorView::NoWaveform) => waves.container is None,
            Err(HeadlessErrorView::NoDecoders) => decoders_among(waves.displayed_items@).len() == 0,
            Err(HeadlessErrorView::Unresolved { name, reason }) => exists|i: int|
                0 <= i < waves.displayed_items@.len() && (
                #[trigger] waves.displayed_items@[i]).1 is Decoder && name == decoder_of(
                    waves.displayed_items@[i],
                ).display_name@ && input::first_unresolved(
                    waves.container.unwrap(),
                    input::input_views(decoder_of(waves.displayed_items@[i]).inputs@),
                    0,
                ) == Some(reason),
            Err(HeadlessErrorView::NoKey { .. }) => true,
            Err(_) => false,
        },
        headless::all_requests(None) == Ok::<Seq<RequestView>, HeadlessErrorView>(Seq::empty()),
{
    let items = waves.displayed_items@;
    if let Some(container) = waves.container {
        every_decoder_is_asked(container, items, items.len());
        assert(items.take(items.len() as int) =~= items);
        fault_has_a_decoder(container, items, items.len());
    }
}

proof fn fault_has_a_decoder(
    waves: WaveContainer,
    items: Seq<(DisplayedItemRef, DisplayedItem)>,
    n: nat,
)
    requires
        n <= items.len(),
    ensures
        headless::first_request_fault(waves, items, n) matches Some(fault) ==> exists|i: int|
            0 <= i < n && (#[trigger] items[i]).1 is Decoder && headless::request_fault(
                waves,
                decoder_of(items[i]),
            ) == Some(fault),
    decreases n,
{
    if n > 0 {
        fault_has_a_decoder(waves, items, (n - 1) as nat);
        if headless::first_request_fault(waves, items, (n - 1) as nat) is None {
            if let Some(fault) = headless::first_request_fault(waves, items, n) {
                assert(items[n - 1].1 is Decoder && headless::request_fault(
                    waves,
                    decoder_of(items[n - 1]),
                ) == Some(fault));
            }
        }
    }
}

/// What is told of an error names the decoder, the file or the reason.
pub proof fn errors_tell_what_is_wrong(name: Seq<char>, reason: ErrorView, words: Seq<char>)
    ensures
        headless::headless_message(HeadlessErrorView::MissingFile { path: name })
            == "waveform file does not exist: "@ + name,
        headless::headless_message(HeadlessErrorView::TimeoutTooLarge) == "timeout is too large"@,
        headless::headless_message(HeadlessErrorView::Unresolved { name, reason })
            == "cannot resolve inputs of '"@ + name + "': "@ + error::error_message(reason),
        headless::headless_message(HeadlessErrorView::LoadTimedOut)
            == "timed out loading the waveform; the load may have failed (see the log)"@,
        headless::headless_message(HeadlessErrorView::CommandsTimedOut)
            == "timed out loading waveform and applying commands"@,
        headless::headless_message(HeadlessErrorView::NoCache { name })
            == "no cache was built for decoder '"@ + name + "'"@,
        headless::headless_message(HeadlessErrorView::Failed { name, reason: words })
            == "decoder '"@ + name + "' failed: "@ + words,
        headless::headless_message(HeadlessErrorView::StillBuilding { name }) == "decoder '"@ + name
            + "' is still building"@,
{
}

/// A dump file is loaded in place of what is open, a trace displays the variable
/// that it names, and nothing comes of any other directive.
pub proof fn directives_ask_for_one_thing(directive: Directive)
    ensures
        match directive {
            Directive::Dumpfile(path) => gtkwave::asked_for(directive) == seq![
                MessageView::LoadFile(path@, LoadOptions::Clear),
            ],
            Directive::Trace(word) => {
                let asked = gtkwave::asked_for(directive);
                &&& asked.len() == 1
                &&& asked[0] matches MessageView::AddVariables(variables) && variables.len() == 1
                    && input::full_path(variables[0]) == word@
            },
            _ => gtkwave::asked_for(directive).len() == 0,
        },
{
    if let Directive::Trace(word) = directive {
        input::named_variable_has_name(word@);
    }
}

/// What the directives of a file ask for comes in their order.
pub proof fn directives_are_followed_in_order(directives: Seq<Directive>, n: nat)
    requires
        n < directives.len(),
    ensures
        gtkwave::asked_for_all(directives, n + 1) == gtkwave::asked_for_all(directives, n)
            + gtkwave::asked_for(directives[n as int]),
        gtkwave::asked_for_all(directives, 0).len() == 0,
{
}

/// What a reader of CSV takes from a line: six fields, each with what ends it.
pub open spec fn six_fields(line: Seq<char>) -> (Seq<Seq<char>>, Seq<char>) {
    let (a, r) = cli::read_field(line);
    let (b, s) = cli::read_field(r.skip(1));
    let (c, t) = cli::read_field(s.skip(1));
    let (d, u) = cli::read_field(t.skip(1));
    let (e, v) = cli::read_field(u.skip(1));
    let (f, w) = cli::read_field(v.skip(1));
    (seq![a, b, c, d, e, f], w)
}

proof fn decimal_is_plain(n: nat)
    ensures
        !cli::needs_quotes(text::decimal(n)),
        cli::written_field(text::decimal(n)) == text::decimal(n),
{
    value_laws::decimals_read_back(n);
    let shown = text::decimal(n);
    if cli::needs_quotes(shown) {
        let i = choose|i: int|
            0 <= i < shown.len() && (#[trigger] shown[i] == ',' || shown[i] == '"' || shown[i]
                == '\n' || shown[i] == '\r');
        assert('0' <= shown[i] <= '9');
    }
}

/// Every line of the CSV format reads back as the decoder's identifier, its name,
/// the name of the row, the start, the end and the value of the item, whatever
/// these contain.
pub proof fn csv_lines_read_back(
    output: OutputView,
    row: RowView,
    item: ItemView,
    rest: Seq<char>,
)
    ensures
        six_fields(cli::csv_line(output, row, item) + rest) == (
            seq![
                output.decoder,
                output.display_name,
                row.name,
                text::decimal(item.start as nat),
                text::decimal(item.end as nat),
                value::formatted(item.value, output.value_format),
            ],
            seq!['\n'] + rest,
        ),
{
    let shown = value::formatted(item.value, output.value_format);
    decimal_is_plain(item.start as nat);
    decimal_is_plain(item.end as nat);
    fields_make_a_line(
        output.decoder,
        output.display_name,
        row.name,
        text::decimal(item.start as nat),
        text::decimal(item.end as nat),
        shown,
        rest,
    );
}

proof fn moved(a: Seq<char>, b: Seq<char>, c: Seq<char>)
    ensures
        (a + b) + c == a + (b + c),
{
    assert((a + b) + c =~= a + (b + c));
}

proof fn fields_make_a_line(
    a: Seq<char>,
    b: Seq<char>,
    c: Seq<char>,
    d: Seq<char>,
    e: Seq<char>,
    f: Seq<char>,
    rest: Seq<char>,
)
    ensures
        six_fields(
            cli::written_field(a) + ","@ + cli::written_field(b) + ","@ + cli::written_field(c)
                + ","@ + cli::written_field(d) + ","@ + cli::written_field(e) + ","@
                + cli::written_field(f) + "\n"@ + rest,
        ) == (seq![a, b, c, d, e, f], seq!['\n'] + rest),
{
    reveal_strlit(",");
    reveal_strlit("\n");
    assert(","@ =~= seq![',']);
    assert("\n"@ =~= seq!['\n']);
    let by = seq![','];
    let (p, q, x, y, z, k) = (
        cli::written_field(a),
        cli::written_field(b),
        cli::written_field(c),
        cli::written_field(d),
        cli::written_field(e),
        cli::written_field(f),
    );
    let w = seq!['\n'] + rest;
    let v = by + (k + w);
    let u = by + (z + v);
    let t = by + (y + u);
    let s = by + (x + t);
    let r = by + (q + s);
    moved(p + by + q + by + x + by + y + by + z + by + k, seq!['\n'], rest);
    moved(p + by + q + by + x + by + y + by + z + by, k, w);
    moved(p + by + q + by + x + by + y + by + z, by, k + w);
    moved(p + by + q + by + x + by + y + by, z, v);
    moved(p + by + q + by + x + by + y, by, z + v);
    moved(p + by + q + by + x + by, y, u);
    moved(p + by + q + by + x, by, y + u);
    moved(p + by + q + by, x, t);
    moved(p + by + q, by, x + t);
    moved(p + by, q, s);
    moved(p, by, q + s);
    cli::fields_read_back(a, r);
    cli::fields_read_back(b, s);
    cli::fields_read_back(c, t);
    cli::fields_read_back(d, u);
    cli::fields_read_back(e, v);
    cli::fields_read_back(f, w);
    skipped(q + s);
    skipped(x + t);
    skipped(y + u);
    skipped(z + v);
    skipped(k + w);
}

proof fn skipped(rest: Seq<char>)
    ensures
        (seq![','] + rest).skip(1) == rest,
{
    assert((seq![','] + rest).skip(1) =~= rest);
}

/// The CSV format has a heading and then one line for every item: those of the
/// first output before those of the next, and within one those of its first row
/// before those of the next.
pub proof fn csv_has_a_line_for_every_item(
    outputs: Seq<OutputView>,
    n: nat,
    output: OutputView,
    k: nat,
    row: RowView,
    m: nat,
)
    ensures
        cli::csv_outputs(outputs, 0) == "decoder,name,row,start,end,value\n"@,
        n < outputs.len() ==> cli::csv_outputs(outputs, n + 1) == cli::csv_outputs(outputs, n)
            + cli::csv_rows(outputs[n as int], outputs[n as int].rows.len()),
        cli::csv_rows(output, 0).len() == 0,
        k < output.rows.len() ==> cli::csv_rows(output, k + 1) == cli::csv_rows(output, k)
            + cli::csv_items(output, output.rows[k as int], output.rows[k as int].items.len()),
        cli::csv_items(output, row, 0).len() == 0,
        m < row.items.len() ==> cli::csv_items(output, row, m + 1) == cli::csv_items(output, row, m)
            + cli::csv_line(output, row, row.items[m as int]),
{
}

/// The text format has a line for every decoder, then one for each of its rows,
/// and behind that one for every item of the row: its times and its value.
pub proof fn text_has_a_line_for_every_item(
    outputs: Seq<OutputView>,
    n: nat,
    all: Seq<RowView>,
    k: nat,
    items: Seq<ItemView>,
    m: nat,
    format: ValueFormat,
)
    ensures
        cli::text_outputs(outputs, 0).len() == 0,
        n < outputs.len() ==> cli::text_outputs(outputs, n + 1) == cli::text_outputs(outputs, n) + (
        "decoder "@ + outputs[n as int].display_name + " ("@ + outputs[n as int].decoder + ")\n"@)
            + cli::text_rows(
            outputs[n as int].rows,
            outputs[n as int].value_format,
            outputs[n as int].rows.len(),
        ),
        cli::text_rows(all, format, 0).len() == 0,
        k < all.len() ==> cli::text_rows(all, format, k + 1) == cli::text_rows(all, format, k) + (
        "  row "@ + all[k as int].name + "\n"@) + cli::text_items(
            all[k as int].items,
            format,
            all[k as int].items.len(),
        ),
        cli::text_items(items, format, 0).len() == 0,
        m < items.len() ==> cli::text_items(items, format, m + 1) == cli::text_items(
            items,
            format,
            m,
        ) + ("    ["@ + text::decimal(items[m as int].start as nat) + " .. "@ + text::decimal(
            items[m as int].end as nat,
        ) + "] "@ + value::formatted(items[m as int].value, format) + "\n"@),
{
}

/// Listing keeps every decoder, row and item with its names, and the times read
/// back as they were.
pub proof fn listing_keeps_everything(output: OutputView, k: int, m: int)
    requires
        0 <= k < output.rows.len(),
        0 <= m < output.rows[k].items.len(),
    ensures
        ({
            let listed = cli::listed_decoder(output);
            let item = listed.rows[k].items[m];
            &&& listed.decoder == output.decoder
            &&& listed.name == output.display_name
            &&& listed.rows.len() == output.rows.len()
            &&& listed.rows[k].name == output.rows[k].name
            &&& listed.rows[k].items.len() == output.rows[k].items.len()
            &&& value_laws::number_in(10, item.start) == output.rows[k].items[m].start
            &&& value_laws::number_in(10, item.end) == output.rows[k].items[m].end
            &&& item.value == value::formatted(
                output.rows[k].items[m].value,
                output.value_format,
            )
        }),
{
    value_laws::decimals_read_back(output.rows[k].items[m].start as nat);
    value_laws::decimals_read_back(output.rows[k].items[m].end as nat);
}

/// The decoders are asked exactly in the loading phase, once the waveform is
/// there and all commands have been applied, and that ends the phase; nothing
/// else does.
pub proof fn loading_ends_when_decoders_are_asked(phase: Phase, seen: Observation)
    ensures
        headless::requests(phase, seen) <==> phase == Phase::Loading && seen.loaded
            && seen.commands_done,
        headless::next_phase(phase, seen) == Phase::Decoding <==> phase == Phase::Decoding || (
        seen.loaded && seen.commands_done),
{
}

/// A timeout names the pending decoders in their order, with a comma between
/// two of them.
pub proof fn timeouts_name_the_pending(pending: Seq<Seq<char>>, name: Seq<char>)
    ensures
        ({
            let told = |names: Seq<Seq<char>>|
                headless::headless_message(HeadlessErrorView::DecodersTimedOut { pending: names });
            &&& told(seq![name]) == "timed out waiting for decoders: "@ + name
            &&& pending.len() > 0 ==> told(pending.push(name)) == told(pending) + ", "@ + name
        }),
{
    let all = pending.push(name);
    assert(all.drop_last() =~= pending);
    if pending.len() > 0 {
        assert("timed out waiting for decoders: "@ + (text::joined(pending, ", "@) + ", "@ + name)
            =~= "timed out waiting for decoders: "@ + text::joined(pending, ", "@) + ", "@ + name);
    }
}

/// What is said where nothing can be decoded.
pub proof fn missing_decoders_are_told(reason: ErrorView)
    ensures
        headless::headless_message(HeadlessErrorView::NoWaveform)
            == "decoders require a waveform source that supports them"@,
        headless::headless_message(HeadlessErrorView::NoKey { reason }) == error::error_message(
            reason,
        ),
        headless::headless_message(HeadlessErrorView::NoDecoders)
            == "no decoder items were added; pass e.g. -C 'decoder_add spdif <signal>'"@,
{
}

/// Without a waveform there is nothing to wait for, and nothing is asked for.
pub proof fn nothing_is_pending_without_waveform()
    ensures
        headless::all_ready(None),
        headless::pending_names(None).len() == 0,
        headless::all_requests(None) == Ok::<Seq<RequestView>, HeadlessErrorView>(Seq::empty()),
{
}

/// What is said where a file cannot be read.
pub proof fn read_errors_tell_what_is_wrong(error: ReadError)
    ensures
        match error {
            ReadError::Eof => gtkwave::read_error_text(error) == "GTKWave unexpected EOF"@,
            ReadError::UnknownLine(line) => gtkwave::read_error_text(error)
                == "GTKWave unknown line '"@ + line@ + "'"@,
            ReadError::UnknownDirective(directive) => gtkwave::read_error_text(error)
                == "GTKWave unknown directive: '"@ + directive@ + "'"@,
            ReadError::Other(words) => gtkwave::read_error_text(error) == "GTKWave: "@ + words@,
        },
{
}

} // verus!
