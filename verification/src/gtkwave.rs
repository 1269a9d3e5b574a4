//! What the directives of a GTKWave save file ask for.
use vstd::prelude::*;
use crate::decoders::input;
use crate::decoders::input::VariableRef;
use crate::message;
use crate::message::{LoadOptions, Message, MessageView};

verus! {

/// A directive of a GTKWave save file.
#[derive(Debug, PartialEq)]
pub enum Directive {
    /// The file that the waveform was dumped to.
    Dumpfile(String),
    /// Marker positions.
    Markers,
    /// A comment line.
    Comment(String),
    /// A trace of one variable. The bits shown of it are not kept.
    Trace(String),
    /// A trace made of several variables.
    TraceMany(Vec<String>),
    /// The beginning of a group.
    OpenGroup(String),
    /// The end of a group.
    CloseGroup(String),
}

/// What a directive asks for: the dump file is loaded in place of what is open,
/// and a trace displays its variable. Other directives are not supported.
pub open spec fn asked_for(directive: Directive) -> Seq<MessageView> {
    match directive {
        Directive::Dumpfile(path) => seq![MessageView::LoadFile(path@, LoadOptions::Clear)],
        Directive::Trace(word) => seq![
            MessageView::AddVariables(seq![input::named_variable(word@)]),
        ],
        _ => Seq::empty(),
    }
}

/// The messages that a directive asks for.
pub fn directive_to_messages(directive: &Directive) -> (messages: Vec<Message>)
    ensures
        message::message_views(messages@) == asked_for(*directive),
{
    let mut messages: Vec<Message> = Vec::new();
    match directive {
        Directive::Dumpfile(path) => {
            messages.push(Message::LoadFile(path.clone(), LoadOptions::Clear));
        },
        Directive::Trace(word) => {
            let mut variables: Vec<VariableRef> = Vec::new();
            variables.push(VariableRef::from_hierarchy_string(word.as_str()));
            assert(message::variable_views(variables@) =~= seq![input::named_variable(word@)]);
            messages.push(Message::AddVariables(variables));
        },
        _ => {},
    }
    assert(message::message_views(messages@) =~= asked_for(*directive));
    messages
}

/// What the first `n` directives ask for, one after another.
pub open spec fn asked_for_all(directives: Seq<Directive>, n: nat) -> Seq<MessageView>
    decreases n,
{
    if n == 0 {
        Seq::empty()
    } else {
        asked_for_all(directives, (n - 1) as nat) + asked_for(directives[n - 1])
    }
}

/// The messages that the directives of a file ask for.
pub fn directives_to_messages(directives: &Vec<Directive>) -> (messages: Vec<Message>)
    ensures
        message::message_views(messages@) == asked_for_all(directives@, directives@.len()),
{
    let mut messages: Vec<Message> = Vec::new();
    let mut i: usize = 0;
    assert(message::message_views(messages@) =~= asked_for_all(directives@, 0));
    while i < directives.len()
        invariant
            i <= directives.len(),
            message::message_views(messages@) == asked_for_all(directives@, i as nat),
        decreases directives.len() - i,
    {
        let mut more = directive_to_messages(&directives[i]);
        let ghost part = message::message_views(more@);
        let ghost before = message::message_views(messages@);
        messages.append(&mut more);
        assert(message::message_views(messages@) =~= before + part);
        i += 1;
    }
    messages
}

/// A line of a GTKWave save file that could not be read.
#[derive(Debug, PartialEq)]
pub enum ReadError {
    Eof,
    UnknownLine(String),
    UnknownDirective(String),
    Other(String),
}

/// What is logged of a line that could not be read.
pub open spec fn read_error_text(error: ReadError) -> Seq<char> {
    match error {
        ReadError::Eof => "GTKWave unexpected EOF"@,
        ReadError::UnknownLine(line) => "GTKWave unknown line '"@ + line@ + "'"@,
        ReadError::UnknownDirective(directive) => "GTKWave unknown directive: '"@ + directive@
            + "'"@,
        ReadError::Other(error) => "GTKWave: "@ + error@,
    }
}

impl ReadError {
    /// What is logged of the line.
    pub fn message(&self) -> (words: String)
        ensures
            words@ == read_error_text(*self),
    {
        match self {
            ReadError::Eof => "GTKWave unexpected EOF".to_owned(),
            ReadError::UnknownLine(line) => {
                let mut words = "GTKWave unknown line '".to_owned();
                words.append(line.as_str());
                words.append("'");
                words
            },
            ReadError::UnknownDirective(directive) => {
                let mut words = "GTKWave unknown directive: '".to_owned();
                words.append(directive.as_str());
                words.append("'");
                words
            },
            ReadError::Other(error) => {
                let mut words = "GTKWave: ".to_owned();
                words.append(error.as_str());
                words
            },
        }
    }

    /// Whether it is logged as an error rather than a warning.
    pub fn is_error(&self) -> (severe: bool)
        ensures
            severe == (self is Other),
    {
        match self {
            ReadError::Other(_) => true,
            _ => false,
        }
    }
}

} // verus!
