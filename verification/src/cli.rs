//! What the command line asks for, and what is printed.
use vstd::prelude::*;
#[allow(unused_imports)]
use vstd::string::*;
use crate::decoders::value;
use crate::decoders::value::{DecodedItem, DecodedRow, ItemView, RowView, ValueFormat};
use crate::headless;
use crate::headless::{DecodedDecoder, OutputView};
use crate::text;

verus! {

/// The command file to run, given by `--command-file` or by its alias
/// `--script`. Of both at once, neither is used.
pub fn command_file<'a>(named: Option<&'a str>, script: Option<&'a str>) -> (file: Option<
    &'a str,
>)
    ensures
        file == (match (named, script) {
            (Some(path), None) => Some(path),
            (None, Some(path)) => Some(path),
            _ => None,
        }),
{
    match (named, script) {
        (Some(path), None) => Some(path),
        (None, Some(path)) => Some(path),
        _ => None,
    }
}

/// `--command-file` and `--script` were both given.
#[derive(Debug, Clone, Copy, PartialEq, Eq, Structural)]
pub struct ConflictingFiles;

impl ConflictingFiles {
    /// This error in words.
    pub fn message(&self) -> (words: &'static str)
        ensures
            words@ == "At most one of --command-file and --script can be used"@,
    {
        "At most one of --command-file and --script can be used"
    }
}

/// The command file for decoding. Passing both `--command-file` and its
/// `--script` alias is rejected rather than silently ignored.
pub fn decode_command_file<'a>(command_file: Option<&'a str>, script: Option<&'a str>) -> (file:
    Result<Option<&'a str>, ConflictingFiles>)
    ensures
        file == (match (command_file, script) {
            (Some(_), Some(_)) => Err(ConflictingFiles),
            (Some(path), None) => Ok(Some(path)),
            (None, Some(path)) => Ok(Some(path)),
            (None, None) => Ok(None),
        }),
{
    match (command_file, script) {
        (Some(_), Some(_)) => Err(ConflictingFiles),
        (Some(path), None) => Ok(Some(path)),
        (None, Some(path)) => Ok(Some(path)),
        (None, None) => Ok(None),
    }
}

/// The commands to run: the inline ones, followed by those of the command file.
pub fn decode_commands(command_string: Option<String>, file_commands: Vec<String>) -> (commands: Vec<
    String,
>)
    ensures
        commands@ == (match command_string {
            Some(inline) => seq![inline] + file_commands@,
            None => file_commands@,
        }),
{
    let mut file_commands = file_commands;
    match command_string {
        Some(inline) => {
            let mut commands: Vec<String> = Vec::new();
            commands.push(inline);
            commands.append(&mut file_commands);
            commands
        },
        None => file_commands,
    }
}

/// Whether a field must be quoted: it contains a delimiter, a quote, or a line
/// end.
pub open spec fn needs_quotes(field: Seq<char>) -> bool {
    field.contains(',') || field.contains('"') || field.contains('\n') || field.contains('\r')
}

/// The text with every quote doubled.
pub open spec fn doubled(field: Seq<char>) -> Seq<char>
    decreases field.len(),
{
    if field.len() == 0 {
        Seq::empty()
    } else if field.last() == '"' {
        doubled(field.drop_last()) + seq!['"', '"']
    } else {
        doubled(field.drop_last()).push(field.last())
    }
}

/// How a field is written.
pub open spec fn written_field(field: Seq<char>) -> Seq<char> {
    if needs_quotes(field) {
        seq!['"'] + doubled(field) + seq!['"']
    } else {
        field
    }
}

/// Quote a CSV field if it contains a delimiter, quote, or newline.
pub fn csv_field(field: &str) -> (written: String)
    ensures
        written@ == written_field(field@),
{
    let chars = text::chars_of(field);
    let mut special = false;
    let mut quoted = String::new();
    quoted.push('"');
    let mut i: usize = 0;
    assert(quoted@ =~= seq!['"'] + doubled(field@.take(0)));
    while i < chars.len()
        invariant
            chars@ == field@,
            i <= chars.len(),
            special == needs_quotes(field@.take(i as int)),
            quoted@ == seq!['"'] + doubled(field@.take(i as int)),
        decreases chars.len() - i,
    {
        let c = chars[i];
        proof {
            let before = field@.take(i as int);
            let after = field@.take(i + 1);
            assert(after =~= before.push(c));
            assert(after.drop_last() =~= before);
            push_contains(before, c, ',');
            push_contains(before, c, '"');
            push_contains(before, c, '\n');
            push_contains(before, c, '\r');
        }
        if c == ',' || c == '"' || c == '\n' || c == '\r' {
            special = true;
        }
        if c == '"' {
            quoted.push('"');
        }
        quoted.push(c);
        assert(quoted@ =~= seq!['"'] + doubled(field@.take(i + 1)));
        i += 1;
    }
    assert(field@.take(i as int) =~= field@);
    if special {
        quoted.push('"');
        assert(quoted@ =~= written_field(field@));
        quoted
    } else {
        field.to_owned()
    }
}

proof fn push_contains(before: Seq<char>, c: char, wanted: char)
    ensures
        before.push(c).contains(wanted) == (before.contains(wanted) || c == wanted),
{
    let after = before.push(c);
    assert(after[before.len() as int] == c);
    if before.contains(wanted) {
        let k = choose|k: int| 0 <= k < before.len() && before[k] == wanted;
        assert(after[k] == wanted);
    }
}

/// What a reader takes from a field behind its opening quote, and what is left.
pub open spec fn read_quoted(input: Seq<char>) -> (Seq<char>, Seq<char>)
    decreases input.len(),
{
    if input.len() == 0 {
        (Seq::empty(), Seq::empty())
    } else if input[0] != '"' {
        let (field, rest) = read_quoted(input.skip(1));
        (seq![input[0]] + field, rest)
    } else if input.len() > 1 && input[1] == '"' {
        let (field, rest) = read_quoted(input.skip(2));
        (seq!['"'] + field, rest)
    } else {
        (Seq::empty(), input.skip(1))
    }
}

/// What a reader takes from a field without quotes, and what is left.
pub open spec fn read_plain(input: Seq<char>) -> (Seq<char>, Seq<char>)
    decreases input.len(),
{
    if input.len() == 0 || input[0] == ',' || input[0] == '\n' || input[0] == '\r' {
        (Seq::empty(), input)
    } else {
        let (field, rest) = read_plain(input.skip(1));
        (seq![input[0]] + field, rest)
    }
}

/// What a reader takes from the next field, and what is left.
pub open spec fn read_field(input: Seq<char>) -> (Seq<char>, Seq<char>) {
    if input.len() > 0 && input[0] == '"' {
        read_quoted(input.skip(1))
    } else {
        read_plain(input)
    }
}

/// A field is read back as it was written, whatever it contains, where a
/// delimiter, a line end or nothing follows.
pub proof fn fields_read_back(field: Seq<char>, rest: Seq<char>)
    requires
        rest.len() == 0 || rest[0] == ',' || rest[0] == '\n',
    ensures
        read_field(written_field(field) + rest) == (field, rest),
{
    let input = written_field(field) + rest;
    if needs_quotes(field) {
        assert(input.skip(1) =~= doubled(field) + (seq!['"'] + rest));
        quoted_reads_back(field, 0, rest);
        assert(field.skip(0) =~= field);
    } else {
        plain_reads_back(field, 0, rest);
        assert(field.skip(0) =~= field);
        if input.len() > 0 && input[0] == '"' {
            if field.len() > 0 {
                assert(field[0] == '"');
                assert(field.contains('"'));
            }
        }
    }
}

proof fn doubled_first(field: Seq<char>)
    requires
        field.len() > 0,
    ensures
        doubled(field) == (if field[0] == '"' {
            seq!['"', '"']
        } else {
            seq![field[0]]
        }) + doubled(field.skip(1)),
    decreases field.len(),
{
    if field.len() == 1 {
        assert(field.skip(1) =~= Seq::<char>::empty());
        assert(field.drop_last() =~= Seq::<char>::empty());
        assert(doubled(Seq::<char>::empty()) =~= Seq::<char>::empty());
        assert(doubled(field) =~= (if field[0] == '"' {
            seq!['"', '"']
        } else {
            seq![field[0]]
        }) + doubled(field.skip(1)));
    } else {
        let front = field.drop_last();
        doubled_first(front);
        assert(front.skip(1) =~= field.skip(1).drop_last());
        assert(field.skip(1).last() == field.last());
        assert(doubled(field) =~= (if field[0] == '"' {
            seq!['"', '"']
        } else {
            seq![field[0]]
        }) + doubled(field.skip(1)));
    }
}

proof fn quoted_reads_back(field: Seq<char>, from: int, rest: Seq<char>)
    requires
        0 <= from <= field.len(),
        rest.len() == 0 || rest[0] != '"',
    ensures
        read_quoted(doubled(field.skip(from)) + (seq!['"'] + rest)) == (field.skip(from), rest),
    decreases field.len() - from,
{
    let left = field.skip(from);
    let input = doubled(left) + (seq!['"'] + rest);
    if left.len() == 0 {
        assert(input =~= seq!['"'] + rest);
        assert(input.skip(1) =~= rest);
        assert(left =~= Seq::<char>::empty());
        if input.len() > 1 {
            assert(input[1] == rest[0]);
        }
    } else {
        doubled_first(left);
        let next = field.skip(from + 1);
        assert(left.skip(1) =~= next);
        quoted_reads_back(field, from + 1, rest);
        let tail = doubled(next) + (seq!['"'] + rest);
        if left[0] == '"' {
            assert(input[0] == '"' && input[1] == '"');
            assert(input.skip(2) =~= tail);
        } else {
            assert(input[0] == left[0]);
            assert(input.skip(1) =~= tail);
        }
        assert(seq![left[0]] + next =~= left);
    }
}

proof fn plain_reads_back(field: Seq<char>, from: int, rest: Seq<char>)
    requires
        0 <= from <= field.len(),
        !needs_quotes(field),
        rest.len() == 0 || rest[0] == ',' || rest[0] == '\n',
    ensures
        read_plain(field.skip(from) + rest) == (field.skip(from), rest),
    decreases field.len() - from,
{
    let left = field.skip(from);
    let input = left + rest;
    if left.len() == 0 {
        assert(input =~= rest);
        assert(left =~= Seq::<char>::empty());
    } else {
        assert(field.contains(field[from]));
        let next = field.skip(from + 1);
        plain_reads_back(field, from + 1, rest);
        assert(input[0] == field[from]);
        assert(input.skip(1) =~= next + rest);
        assert(seq![left[0]] + next =~= left);
    }
}

/// The line of an item in the text format.
pub open spec fn text_line(item: ItemView, format: ValueFormat) -> Seq<char> {
    "    ["@ + text::decimal(item.start as nat) + " .. "@ + text::decimal(item.end as nat) + "] "@
        + value::formatted(item.value, format) + "\n"@
}

/// The lines of the first `n` items in the text format.
pub open spec fn text_items(items: Seq<ItemView>, format: ValueFormat, n: nat) -> Seq<char>
    decreases n,
{
    if n == 0 {
        Seq::empty()
    } else {
        text_items(items, format, (n - 1) as nat) + text_line(items[n - 1], format)
    }
}

/// The lines of the first `n` rows in the text format.
pub open spec fn text_rows(rows: Seq<RowView>, format: ValueFormat, n: nat) -> Seq<char>
    decreases n,
{
    if n == 0 {
        Seq::empty()
    } else {
        let row = rows[n - 1];
        text_rows(rows, format, (n - 1) as nat) + ("  row "@ + row.name + "\n"@) + text_items(
            row.items,
            format,
            row.items.len(),
        )
    }
}

/// The first `n` outputs in the text format.
pub open spec fn text_outputs(outputs: Seq<OutputView>, n: nat) -> Seq<char>
    decreases n,
{
    if n == 0 {
        Seq::empty()
    } else {
        let output = outputs[n - 1];
        text_outputs(outputs, (n - 1) as nat) + ("decoder "@ + output.display_name + " ("@
            + output.decoder + ")\n"@) + text_rows(
            output.rows,
            output.value_format,
            output.rows.len(),
        )
    }
}

fn push_text_items(out: &mut String, items: &Vec<DecodedItem>, format: ValueFormat)
    ensures
        final(out)@ == old(out)@ + text_items(value::item_views(items@), format, items@.len()),
{
    let ghost all = value::item_views(items@);
    let ghost before = out@;
    let mut i: usize = 0;
    assert(out@ =~= before + text_items(all, format, 0));
    while i < items.len()
        invariant
            all == value::item_views(items@),
            i <= items.len(),
            out@ == before + text_items(all, format, i as nat),
        decreases items.len() - i,
    {
        let item = &items[i];
        assert(all[i as int] == item@);
        out.append("    [");
        text::push_decimal(out, item.start);
        out.append(" .. ");
        text::push_decimal(out, item.end);
        out.append("] ");
        out.append(item.value.format(format).as_str());
        out.append("\n");
        assert(out@ =~= before + text_items(all, format, (i + 1) as nat));
        i += 1;
    }
}

fn push_text_rows(out: &mut String, rows: &Vec<DecodedRow>, format: ValueFormat)
    ensures
        final(out)@ == old(out)@ + text_rows(value::row_views(rows@), format, rows@.len()),
{
    let ghost all = value::row_views(rows@);
    let ghost before = out@;
    let mut i: usize = 0;
    assert(out@ =~= before + text_rows(all, format, 0));
    while i < rows.len()
        invariant
            all == value::row_views(rows@),
            i <= rows.len(),
            out@ == before + text_rows(all, format, i as nat),
        decreases rows.len() - i,
    {
        let row = &rows[i];
        assert(all[i as int] == row@);
        out.append("  row ");
        out.append(row.name.as_str());
        out.append("\n");
        push_text_items(out, &row.items, format);
        assert(out@ =~= before + text_rows(all, format, (i + 1) as nat));
        i += 1;
    }
}

/// The outputs in the text format.
pub fn render_text(outputs: &Vec<DecodedDecoder>) -> (out: String)
    ensures
        out@ == text_outputs(headless::output_views(outputs@), outputs@.len()),
{
    let ghost all = headless::output_views(outputs@);
    let mut out = String::new();
    let mut i: usize = 0;
    assert(out@ =~= text_outputs(all, 0));
    while i < outputs.len()
        invariant
            all == headless::output_views(outputs@),
            i <= outputs.len(),
            out@ == text_outputs(all, i as nat),
        decreases outputs.len() - i,
    {
        let output = &outputs[i];
        let ghost before = out@;
        assert(all[i as int] == output@);
        out.append("decoder ");
        out.append(output.display_name.as_str());
        out.append(" (");
        out.append(output.decoder.as_str());
        out.append(")\n");
        push_text_rows(&mut out, &output.data.rows, output.value_format);
        assert(out@ =~= text_outputs(all, (i + 1) as nat));
        i += 1;
    }
    out
}

/// The line of an item in the CSV format.
pub open spec fn csv_line(output: OutputView, row: RowView, item: ItemView) -> Seq<char> {
    written_field(output.decoder) + ","@ + written_field(output.display_name) + ","@
        + written_field(row.name) + ","@ + text::decimal(item.start as nat) + ","@ + text::decimal(
        item.end as nat,
    ) + ","@ + written_field(value::formatted(item.value, output.value_format)) + "\n"@
}

/// The lines of the first `n` items of a row in the CSV format.
pub open spec fn csv_items(output: OutputView, row: RowView, n: nat) -> Seq<char>
    decreases n,
{
    if n == 0 {
        Seq::empty()
    } else {
        csv_items(output, row, (n - 1) as nat) + csv_line(output, row, row.items[n - 1])
    }
}

/// The lines of the first `n` rows of an output in the CSV format.
pub open spec fn csv_rows(output: OutputView, n: nat) -> Seq<char>
    decreases n,
{
    if n == 0 {
        Seq::empty()
    } else {
        let row = output.rows[n - 1];
        csv_rows(output, (n - 1) as nat) + csv_items(output, row, row.items.len())
    }
}

/// The heading and the first `n` outputs in the CSV format.
pub open spec fn csv_outputs(outputs: Seq<OutputView>, n: nat) -> Seq<char>
    decreases n,
{
    if n == 0 {
        "decoder,name,row,start,end,value\n"@
    } else {
        let output = outputs[n - 1];
        csv_outputs(outputs, (n - 1) as nat) + csv_rows(output, output.rows.len())
    }
}

fn push_csv_items(out: &mut String, output: &DecodedDecoder, row: &DecodedRow)
    ensures
        final(out)@ == old(out)@ + csv_items(output@, row@, row.items@.len()),
{
    let ghost before = out@;
    let items = &row.items;
    let mut i: usize = 0;
    assert(out@ =~= before + csv_items(output@, row@, 0));
    while i < items.len()
        invariant
            items == &row.items,
            i <= items.len(),
            out@ == before + csv_items(output@, row@, i as nat),
        decreases items.len() - i,
    {
        let item = &items[i];
        assert(row@.items[i as int] == item@);
        out.append(csv_field(output.decoder.as_str()).as_str());
        out.append(",");
        out.append(csv_field(output.display_name.as_str()).as_str());
        out.append(",");
        out.append(csv_field(row.name.as_str()).as_str());
        out.append(",");
        text::push_decimal(out, item.start);
        out.append(",");
        text::push_decimal(out, item.end);
        out.append(",");
        out.append(csv_field(item.value.format(output.value_format).as_str()).as_str());
        out.append("\n");
        assert(out@ =~= before + csv_items(output@, row@, i as nat) + csv_line(
            output@,
            row@,
            item@,
        ));
        assert(out@ =~= before + csv_items(output@, row@, (i + 1) as nat));
        i += 1;
    }
}

/// The outputs in the CSV format.
pub fn render_csv(outputs: &Vec<DecodedDecoder>) -> (out: String)
    ensures
        out@ == csv_outputs(headless::output_views(outputs@), outputs@.len()),
{
    let ghost all = headless::output_views(outputs@);
    let mut out = "decoder,name,row,start,end,value\n".to_owned();
    let mut i: usize = 0;
    while i < outputs.len()
        invariant
            all == headless::output_views(outputs@),
            i <= outputs.len(),
            out@ == csv_outputs(all, i as nat),
        decreases outputs.len() - i,
    {
        let output = &outputs[i];
        assert(all[i as int] == output@);
        let ghost before = out@;
        let rows = &output.data.rows;
        let mut k: usize = 0;
        assert(out@ =~= before + csv_rows(output@, 0));
        while k < rows.len()
            invariant
                rows == &output.data.rows,
                k <= rows.len(),
                out@ == before + csv_rows(output@, k as nat),
            decreases rows.len() - k,
        {
            assert(output@.rows[k as int] == rows@[k as int]@);
            push_csv_items(&mut out, output, &rows[k]);
            assert(out@ =~= before + csv_rows(output@, (k + 1) as nat));
            k += 1;
        }
        i += 1;
    }
    out
}

/// An item as it is listed: its times in decimal, and its value as text.
#[derive(Debug, PartialEq)]
pub struct ListedItem {
    pub start: String,
    pub end: String,
    pub value: String,
}

/// A row as it is listed.
#[derive(Debug, PartialEq)]
pub struct ListedRow {
    pub name: String,
    pub items: Vec<ListedItem>,
}

/// The output of a decoder as it is listed.
#[derive(Debug, PartialEq)]
pub struct ListedDecoder {
    pub decoder: String,
    pub name: String,
    pub rows: Vec<ListedRow>,
}

/// A [`ListedItem`] with its texts as sequences of characters.
#[verifier::ext_equal]
pub struct ListedItemView {
    pub start: Seq<char>,
    pub end: Seq<char>,
    pub value: Seq<char>,
}

/// A [`ListedRow`] with its texts as sequences of characters.
#[verifier::ext_equal]
pub struct ListedRowView {
    pub name: Seq<char>,
    pub items: Seq<ListedItemView>,
}

/// A [`ListedDecoder`] with its texts as sequences of characters.
#[verifier::ext_equal]
pub struct ListedDecoderView {
    pub decoder: Seq<char>,
    pub name: Seq<char>,
    pub rows: Seq<ListedRowView>,
}

impl View for ListedItem {
    type V = ListedItemView;

    open spec fn view(&self) -> ListedItemView {
        ListedItemView { start: self.start@, end: self.end@, value: self.value@ }
    }
}

impl View for ListedRow {
    type V = ListedRowView;

    open spec fn view(&self) -> ListedRowView {
        ListedRowView {
            name: self.name@,
            items: Seq::new(self.items@.len(), |i: int| self.items@[i]@),
        }
    }
}

impl View for ListedDecoder {
    type V = ListedDecoderView;

    open spec fn view(&self) -> ListedDecoderView {
        ListedDecoderView {
            decoder: self.decoder@,
            name: self.name@,
            rows: Seq::new(self.rows@.len(), |i: int| self.rows@[i]@),
        }
    }
}

/// How an item is listed.
pub open spec fn listed_item(item: ItemView, format: ValueFormat) -> ListedItemView {
    ListedItemView {
        start: text::decimal(item.start as nat),
        end: text::decimal(item.end as nat),
        value: value::formatted(item.value, format),
    }
}

/// How a row is listed.
pub open spec fn listed_row(row: RowView, format: ValueFormat) -> ListedRowView {
    ListedRowView {
        name: row.name,
        items: Seq::new(row.items.len(), |i: int| listed_item(row.items[i], format)),
    }
}

/// How the output of a decoder is listed.
pub open spec fn listed_decoder(output: OutputView) -> ListedDecoderView {
    ListedDecoderView {
        decoder: output.decoder,
        name: output.display_name,
        rows: Seq::new(
            output.rows.len(),
            |i: int| listed_row(output.rows[i], output.value_format),
        ),
    }
}

/// The views of a list of listed outputs.
pub open spec fn listed_views(listed: Seq<ListedDecoder>) -> Seq<ListedDecoderView> {
    Seq::new(listed.len(), |i: int| listed[i]@)
}

fn list_row(row: &DecodedRow, format: ValueFormat) -> (listed: ListedRow)
    ensures
        listed@ == listed_row(row@, format),
{
    let mut items: Vec<ListedItem> = Vec::new();
    let mut i: usize = 0;
    while i < row.items.len()
        invariant
            i <= row.items.len(),
            items.len() == i,
            forall|k: int|
                0 <= k < i ==> (#[trigger] items@[k])@ == listed_item(row.items@[k]@, format),
        decreases row.items.len() - i,
    {
        let item = &row.items[i];
        items.push(
            ListedItem {
                start: text::decimal_text(item.start),
                end: text::decimal_text(item.end),
                value: item.value.format(format),
            },
        );
        i += 1;
    }
    let listed = ListedRow { name: row.name.clone(), items };
    assert(listed@ =~= listed_row(row@, format));
    listed
}

fn list_output(output: &DecodedDecoder) -> (listed: ListedDecoder)
    ensures
        listed@ == listed_decoder(output@),
{
    let from = &output.data.rows;
    let mut rows: Vec<ListedRow> = Vec::new();
    let mut i: usize = 0;
    while i < from.len()
        invariant
            i <= from.len(),
            rows.len() == i,
            forall|k: int|
                0 <= k < i ==> (#[trigger] rows@[k])@ == listed_row(
                    from@[k]@,
                    output.value_format,
                ),
        decreases from.len() - i,
    {
        rows.push(list_row(&from[i], output.value_format));
        i += 1;
    }
    let listed = ListedDecoder {
        decoder: output.decoder.clone(),
        name: output.display_name.clone(),
        rows,
    };
    assert(listed@ =~= listed_decoder(output@));
    listed
}

/// The outputs as they are listed in the JSON format: every time and every value
/// is a text.
pub fn list_outputs(outputs: &Vec<DecodedDecoder>) -> (listed: Vec<ListedDecoder>)
    ensures
        listed_views(listed@) == headless::output_views(outputs@).map_values(
            |output: OutputView| listed_decoder(output),
        ),
{
    let mut listed: Vec<ListedDecoder> = Vec::new();
    let mut i: usize = 0;
    while i < outputs.len()
        invariant
            i <= outputs.len(),
            listed.len() == i,
            forall|k: int| 0 <= k < i ==> (#[trigger] listed@[k])@ == listed_decoder(outputs@[k]@),
        decreases outputs.len() - i,
    {
        listed.push(list_output(&outputs[i]));
        i += 1;
    }
    assert(listed_views(listed@) =~= headless::output_views(outputs@).map_values(
        |output: OutputView| listed_decoder(output),
    ));
    listed
}

} // verus!
