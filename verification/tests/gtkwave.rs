//! Tests of reading GTKWave save files.
use libsurfer::decoders::input::VariableRef;
use libsurfer::gtkwave::{directive_to_messages, directives_to_messages, Directive, ReadError};
use libsurfer::message::{LoadOptions, Message};

#[test]
fn directives_ask_for_files_and_variables() {
    assert_eq!(
        directive_to_messages(&Directive::Dumpfile("dump.vcd".to_string())),
        [Message::LoadFile("dump.vcd".to_string(), LoadOptions::Clear)]
    );
    assert_eq!(
        directive_to_messages(&Directive::Trace("tb.dut.data".to_string())),
        [Message::AddVariables(vec![
            VariableRef::from_hierarchy_string("tb.dut.data")
        ])]
    );
    for directive in [
        Directive::Markers,
        Directive::Comment("note".to_string()),
        Directive::TraceMany(vec!["tb.a".to_string(), "tb.b".to_string()]),
        Directive::OpenGroup("group".to_string()),
        Directive::CloseGroup("group".to_string()),
    ] {
        assert!(directive_to_messages(&directive).is_empty(), "{directive:?}");
    }
}

#[test]
fn messages_keep_the_order_of_the_directives() {
    let messages = directives_to_messages(&vec![
        Directive::Dumpfile("dump.vcd".to_string()),
        Directive::Comment("note".to_string()),
        Directive::Trace("tb.b".to_string()),
        Directive::Trace("tb.a".to_string()),
    ]);
    assert_eq!(messages.len(), 3);
    assert_eq!(
        messages[1],
        Message::AddVariables(vec![VariableRef::from_hierarchy_string("tb.b")])
    );
    assert_eq!(
        messages[2],
        Message::AddVariables(vec![VariableRef::from_hierarchy_string("tb.a")])
    );
}

#[test]
fn unreadable_lines_are_logged() {
    assert_eq!(ReadError::Eof.message(), "GTKWave unexpected EOF");
    assert_eq!(
        ReadError::UnknownLine("???".to_string()).message(),
        "GTKWave unknown line '???'"
    );
    assert_eq!(
        ReadError::UnknownDirective("[x]".to_string()).message(),
        "GTKWave unknown directive: '[x]'"
    );
    assert_eq!(
        ReadError::Other("bad number".to_string()).message(),
        "GTKWave: bad number"
    );
    assert!(ReadError::Other(String::new()).is_error());
    assert!(!ReadError::Eof.is_error());
    assert!(!ReadError::UnknownLine(String::new()).is_error());
    assert!(!ReadError::UnknownDirective(String::new()).is_error());
}
