//! Tests of the command line and of what is printed.
use std::sync::Arc;

use libsurfer::cli::{
    command_file, csv_field, decode_command_file, decode_commands, list_outputs, render_csv,
    render_text, ConflictingFiles, ListedItem,
};
use libsurfer::decoders::value::{
    DecodedData, DecodedItem, DecodedRow, DecodedValue, ValueFormat,
};
use libsurfer::headless::DecodedDecoder;

#[test]
fn command_file_prefers_single_sources() {
    // Only --command_file
    let cf = command_file(Some("C:/tmp/cmds.sucl"), None).unwrap();
    assert!(cf.ends_with("cmds.sucl"));

    // Only --script
    let cf = command_file(None, Some("C:/tmp/scr.sucl")).unwrap();
    assert!(cf.ends_with("scr.sucl"));

    assert_eq!(command_file(None, None), None);
}

#[test]
fn command_file_conflict_returns_none() {
    assert!(command_file(Some("C:/tmp/cmds.sucl"), Some("C:/tmp/scr.sucl")).is_none());
}

#[test]
fn decode_commands_rejects_command_file_and_script() {
    let error = decode_command_file(Some("cmds.sucl"), Some("cmds.sucl"))
        .expect_err("both aliases should be rejected");
    assert_eq!(error, ConflictingFiles);
    assert!(error.message().contains("At most one"), "{}", error.message());
    assert_eq!(decode_command_file(Some("a"), None), Ok(Some("a")));
    assert_eq!(decode_command_file(None, Some("b")), Ok(Some("b")));
    assert_eq!(decode_command_file(None, None), Ok(None));
}

#[test]
fn decode_commands_puts_inline_commands_first() {
    let commands = decode_commands(
        Some("decoder_add spdif tb.data".to_string()),
        vec!["variable_add tb.data".to_string()],
    );

    assert_eq!(commands.len(), 2);
    assert_eq!(commands[0], "decoder_add spdif tb.data");
    assert_eq!(commands[1], "variable_add tb.data");
    assert_eq!(decode_commands(None, vec!["a".to_string()]), ["a"]);
    assert!(decode_commands(None, vec![]).is_empty());
}

fn outputs() -> Vec<DecodedDecoder> {
    let item = |start: u64, end: u64, value: DecodedValue| DecodedItem { start, end, value };
    vec![
        DecodedDecoder {
            decoder: "tdm_audio".to_string(),
            display_name: "TDM, \"left\"".to_string(),
            data: Arc::new(DecodedData {
                rows: vec![
                    DecodedRow {
                        name: "ch0".to_string(),
                        numeric_range: None,
                        items: vec![
                            item(0, 15, DecodedValue::integer(-1, 8)),
                            item(15, 30, DecodedValue::HighImp),
                        ],
                    },
                    DecodedRow {
                        name: "errors".to_string(),
                        numeric_range: None,
                        items: vec![item(2, u64::MAX, DecodedValue::text("a\nb"))],
                    },
                ],
            }),
            value_format: ValueFormat::Decimal,
        },
        DecodedDecoder {
            decoder: "spdif".to_string(),
            display_name: "S/PDIF".to_string(),
            data: Arc::new(DecodedData {
                rows: vec![DecodedRow {
                    name: "A".to_string(),
                    numeric_range: None,
                    items: vec![item(7, 9, DecodedValue::integer(-1, 8))],
                }],
            }),
            value_format: ValueFormat::Hexadecimal,
        },
    ]
}

#[test]
fn prints_text() {
    let expected = [
        "decoder TDM, \"left\" (tdm_audio)",
        "  row ch0",
        "    [0 .. 15] -1",
        "    [15 .. 30] z",
        "  row errors",
        "    [2 .. 18446744073709551615] a",
        "b",
        "decoder S/PDIF (spdif)",
        "  row A",
        "    [7 .. 9] 0xff",
        "",
    ]
    .join("\n");
    assert_eq!(render_text(&outputs()), expected);
    assert_eq!(render_text(&vec![]), "");
}

#[test]
fn prints_csv() {
    let expected = [
        "decoder,name,row,start,end,value",
        "tdm_audio,\"TDM, \"\"left\"\"\",ch0,0,15,-1",
        "tdm_audio,\"TDM, \"\"left\"\"\",ch0,15,30,z",
        "tdm_audio,\"TDM, \"\"left\"\"\",errors,2,18446744073709551615,\"a",
        "b\"",
        "spdif,S/PDIF,A,7,9,0xff",
        "",
    ]
    .join("\n");
    assert_eq!(render_csv(&outputs()), expected);
    assert_eq!(
        render_csv(&vec![]),
        "decoder,name,row,start,end,value\n"
    );
}

#[test]
fn lists_outputs() {
    let listed = list_outputs(&outputs());
    assert_eq!(listed.len(), 2);
    assert_eq!(listed[0].decoder, "tdm_audio");
    assert_eq!(listed[0].name, "TDM, \"left\"");
    assert_eq!(listed[0].rows[1].name, "errors");
    assert_eq!(
        listed[0].rows[1].items,
        [ListedItem {
            start: "2".to_string(),
            end: "18446744073709551615".to_string(),
            value: "a\nb".to_string(),
        }]
    );
    assert_eq!(listed[0].rows[0].items[0].value, "-1");
    assert_eq!(listed[1].rows[0].items[0].value, "0xff");
    assert!(list_outputs(&vec![]).is_empty());
}

/// Reads a field up to the comma behind it.
fn read(line: &str) -> (String, &str) {
    let mut field = String::new();
    let mut chars = line.char_indices().peekable();
    if line.starts_with('"') {
        chars.next();
        while let Some((at, c)) = chars.next() {
            if c != '"' {
                field.push(c);
            } else if matches!(chars.peek(), Some((_, '"'))) {
                chars.next();
                field.push('"');
            } else {
                return (field, &line[at + 1..]);
            }
        }
        panic!("unterminated field in {line}");
    }
    let end = line.find([',', '\n', '\r']).unwrap_or(line.len());
    (line[..end].to_string(), &line[end..])
}

#[test]
fn csv_fields_read_back() {
    assert_eq!(csv_field("plain"), "plain");
    assert_eq!(csv_field("a,b"), "\"a,b\"");
    assert_eq!(csv_field("say \"hi\""), "\"say \"\"hi\"\"\"");
    assert_eq!(csv_field("a\rb"), "\"a\rb\"");
    assert_eq!(csv_field(""), "");
    for field in ["", "plain", "a,b", "\"", "\"\"", "a\nb", ",\",\r\n"] {
        let line = csv_field(field) + ",next";
        assert_eq!(read(&line), (field.to_string(), ",next"));
    }
}
