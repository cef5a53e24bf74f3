//! The interactive front end: what a typed line asks for, and what is printed
//! when the answer is in.
//!
//! A line is split at white space. `GET key` asks for a value and
//! `PUT key value` stores one; words after these are ignored. Any other line
//! is answered on the spot with a message and sends nothing.

use vstd::prelude::*;
use vstd::slice::slice_to_vec;
use vstd::string::*;
use vstd::utf8::*;
use crate::client::{ClientError, ClientErrorView, Reply, ReplyView, result_view};
use crate::command::{Command, CommandView};
use crate::connection::ConnectionError;
use crate::text::{byte_literal, debug_bytes};

verus! {

/// Whether `c` is white space: a character with the Unicode property
/// `White_Space`.
pub open spec fn is_space(c: char) -> bool {
    ||| c == ' '
    ||| '\u{9}' <= c <= '\u{d}'
    ||| c == '\u{85}'
    ||| c == '\u{a0}'
    ||| c == '\u{1680}'
    ||| '\u{2000}' <= c <= '\u{200a}'
    ||| c == '\u{2028}'
    ||| c == '\u{2029}'
    ||| c == '\u{202f}'
    ||| c == '\u{205f}'
    ||| c == '\u{3000}'
}

/// The index of the first character at or after `from` that is no white
/// space, or the length of `line` if there is none.
pub open spec fn spaces_end(line: Seq<char>, from: int) -> int
    decreases line.len() - from,
{
    if 0 <= from < line.len() && is_space(line[from]) {
        spaces_end(line, from + 1)
    } else {
        from
    }
}

/// The index of the first character at or after `from` that is white space,
/// or the length of `line` if there is none.
pub open spec fn word_end(line: Seq<char>, from: int) -> int
    decreases line.len() - from,
{
    if 0 <= from < line.len() && !is_space(line[from]) {
        word_end(line, from + 1)
    } else {
        from
    }
}

/// The index at which word number `n` of `line` starts, counting from 0; the
/// length of `line` if it has no such word.
pub open spec fn word_start(line: Seq<char>, n: nat) -> int
    decreases n,
{
    if n == 0 {
        spaces_end(line, 0)
    } else {
        spaces_end(line, word_end(line, word_start(line, (n - 1) as nat)))
    }
}

/// Word number `n` of `line`, counting from 0; empty if it has no such word.
pub open spec fn word(line: Seq<char>, n: nat) -> Seq<char> {
    line.subrange(word_start(line, n), word_end(line, word_start(line, n)))
}

/// Why a line sends nothing.
#[derive(Debug, Clone, Copy, PartialEq, Eq, Structural)]
pub enum InputError {
    /// `GET` without a key.
    MissingGetKey,
    /// `PUT` without a key.
    MissingPutKey,
    /// `PUT` with a key and without a value.
    MissingPutValue,
    /// The line does not start with `GET` or `PUT`.
    UnknownVerb,
}

impl InputError {
    /// What the user is told.
    pub open spec fn message_text(self) -> Seq<char> {
        match self {
            InputError::MissingGetKey => "error reading key"@,
            InputError::MissingPutKey => "unable to read key"@,
            InputError::MissingPutValue => "unable to read val"@,
            InputError::UnknownVerb => "accpets only GET X or PUT X Y"@,
        }
    }

    /// What the user is told.
    pub fn message(&self) -> (text: String)
        ensures
            text@ == self.message_text(),
    {
        match self {
            InputError::MissingGetKey => "error reading key".to_owned(),
            InputError::MissingPutKey => "unable to read key".to_owned(),
            InputError::MissingPutValue => "unable to read val".to_owned(),
            InputError::UnknownVerb => "accpets only GET X or PUT X Y".to_owned(),
        }
    }
}

/// The command that `line` asks for, or why it asks for none.
pub open spec fn request_of(line: Seq<char>) -> Result<CommandView, InputError> {
    let verb = word(line, 0);
    let key = word(line, 1);
    let value = word(line, 2);
    if verb == seq!['G', 'E', 'T'] {
        if key.len() == 0 {
            Err(InputError::MissingGetKey)
        } else {
            Ok(CommandView::Get { key })
        }
    } else if verb == seq!['P', 'U', 'T'] {
        if key.len() == 0 {
            Err(InputError::MissingPutKey)
        } else if value.len() == 0 {
            Err(InputError::MissingPutValue)
        } else {
            Ok(CommandView::Put { key, value: encode_utf8(value) })
        }
    } else {
        Err(InputError::UnknownVerb)
    }
}

/// What `result` stands for.
pub open spec fn request_view(result: Result<Command, InputError>) -> Result<
    CommandView,
    InputError,
> {
    match result {
        Ok(command) => Ok(command@),
        Err(e) => Err(e),
    }
}

/// Whether `c` is white space.
pub fn is_whitespace(c: char) -> (r: bool)
    ensures
        r == is_space(c),
{
    c == ' ' || ('\u{9}' <= c && c <= '\u{d}') || c == '\u{85}' || c == '\u{a0}' || c
        == '\u{1680}' || ('\u{2000}' <= c && c <= '\u{200a}') || c == '\u{2028}' || c
        == '\u{2029}' || c == '\u{202f}' || c == '\u{205f}' || c == '\u{3000}'
}

/// The characters of `line`, one by one.
fn characters(line: &str) -> (chars: Vec<char>)
    ensures
        chars@ == line@,
{
    let mut chars: Vec<char> = Vec::new();
    for c in it: line.chars()
        invariant
            chars@ == it.seq().take(it.index() as int),
            it.seq() == line@,
    {
        chars.push(c);
    }
    chars
}

/// Skips the white space that starts at `from`.
fn skip_spaces(chars: &Vec<char>, from: usize) -> (end: usize)
    requires
        from <= chars.len(),
    ensures
        end == spaces_end(chars@, from as int),
        from <= end <= chars.len(),
{
    let mut i: usize = from;
    while i < chars.len() && is_whitespace(chars[i])
        invariant
            from <= i <= chars.len(),
            spaces_end(chars@, from as int) == spaces_end(chars@, i as int),
        decreases chars.len() - i,
    {
        i = i + 1;
    }
    i
}

/// Skips the word that starts at `from`.
fn skip_word(chars: &Vec<char>, from: usize) -> (end: usize)
    requires
        from <= chars.len(),
    ensures
        end == word_end(chars@, from as int),
        from <= end <= chars.len(),
{
    let mut i: usize = from;
    while i < chars.len() && !is_whitespace(chars[i])
        invariant
            from <= i <= chars.len(),
            word_end(chars@, from as int) == word_end(chars@, i as int),
        decreases chars.len() - i,
    {
        i = i + 1;
    }
    i
}

/// Whether `chars[from..to]` is the three-letter word `a b c`.
fn is_verb(chars: &Vec<char>, from: usize, to: usize, a: char, b: char, c: char) -> (r: bool)
    requires
        from <= to <= chars.len(),
    ensures
        r == (chars@.subrange(from as int, to as int) == seq![a, b, c]),
{
    let ghost verb = chars@.subrange(from as int, to as int);
    if to - from != 3 {
        assert(verb.len() != seq![a, b, c].len());
        return false;
    }
    let r = chars[from] == a && chars[from + 1] == b && chars[from + 2] == c;
    proof {
        if r {
            assert(verb =~= seq![a, b, c]);
        }
    }
    r
}

/// Reads what a typed line asks for.
pub fn parse_line(line: &str) -> (r: Result<Command, InputError>)
    ensures
        request_view(r) == request_of(line@),
{
    let chars = characters(line);
    let verb_start = skip_spaces(&chars, 0);
    let verb_end = skip_word(&chars, verb_start);
    let key_start = skip_spaces(&chars, verb_end);
    let key_end = skip_word(&chars, key_start);
    let value_start = skip_spaces(&chars, key_end);
    let value_end = skip_word(&chars, value_start);
    proof {
        reveal_with_fuel(word_start, 3);
    }
    if is_verb(&chars, verb_start, verb_end, 'G', 'E', 'T') {
        if key_start == key_end {
            return Err(InputError::MissingGetKey);
        }
        let key = line.substring_char(key_start, key_end).to_owned();
        Ok(Command::Get { key })
    } else if is_verb(&chars, verb_start, verb_end, 'P', 'U', 'T') {
        if key_start == key_end {
            return Err(InputError::MissingPutKey);
        }
        if value_start == value_end {
            return Err(InputError::MissingPutValue);
        }
        let key = line.substring_char(key_start, key_end).to_owned();
        let value = slice_to_vec(line.substring_char(value_start, value_end).as_bytes());
        Ok(Command::Put { key, value })
    } else {
        Err(InputError::UnknownVerb)
    }
}

/// The words that tell of the error `e`.
pub open spec fn error_text(e: ClientErrorView) -> Seq<char> {
    match e {
        ClientErrorView::Connection(ConnectionError::Protocol(_)) => "protocol error"@,
        ClientErrorView::Connection(ConnectionError::ResetByPeer) => "connection reset by peer"@,
        ClientErrorView::Connection(ConnectionError::Io) => "connection failed"@,
        ClientErrorView::Refused(message) => "server refused: "@ + message,
        ClientErrorView::UnexpectedResponse => "unexpected response"@,
        ClientErrorView::Busy => "another command is under way"@,
        ClientErrorView::NotAwaiting => "no command is under way"@,
    }
}

/// The words that tell of the error `e`.
pub fn describe(e: &ClientError) -> (text: String)
    ensures
        text@ == error_text(e@),
{
    match e {
        ClientError::Connection(ConnectionError::Protocol(_)) => "protocol error".to_owned(),
        ClientError::Connection(ConnectionError::ResetByPeer) => {
            "connection reset by peer".to_owned()
        },
        ClientError::Connection(ConnectionError::Io) => "connection failed".to_owned(),
        ClientError::Refused(message) => {
            let mut text = "server refused: ".to_owned();
            text.append(message.as_str());
            text
        },
        ClientError::UnexpectedResponse => "unexpected response".to_owned(),
        ClientError::Busy => "another command is under way".to_owned(),
        ClientError::NotAwaiting => "no command is under way".to_owned(),
    }
}

/// The line that is printed when `command` has come to `result`.
///
/// A value is printed as a byte-string literal, and a `GET` that finds nothing
/// prints the words `no value found` in the same form.
pub open spec fn report_text(
    command: CommandView,
    result: Result<ReplyView, ClientErrorView>,
) -> Seq<char> {
    match command {
        CommandView::Get { .. } => match result {
            Ok(ReplyView::Value(Some(value))) => "Got Get "@ + byte_literal(value),
            Ok(ReplyView::Value(None)) => "Got Get "@ + byte_literal(
                encode_utf8("no value found"@),
            ),
            Ok(ReplyView::Stored) => "Got Get error: "@ + error_text(
                ClientErrorView::UnexpectedResponse,
            ),
            Err(e) => "Got Get error: "@ + error_text(e),
        },
        CommandView::Put { .. } => match result {
            Ok(ReplyView::Stored) => "Got Set Ok(Ok(()))"@,
            Ok(ReplyView::Value(_)) => "Got Set error: "@ + error_text(
                ClientErrorView::UnexpectedResponse,
            ),
            Err(e) => "Got Set error: "@ + error_text(e),
        },
    }
}

/// The line to print when `command` has come to `result`.
pub fn report(command: &Command, result: &Result<Reply, ClientError>) -> (line: String)
    ensures
        line@ == report_text(command@, result_view(*result)),
{
    match command {
        Command::Get { .. } => match result {
            Ok(Reply::Value(Some(value))) => {
                let mut line = "Got Get ".to_owned();
                line.append(debug_bytes(value.as_slice()).as_str());
                line
            },
            Ok(Reply::Value(None)) => {
                let mut line = "Got Get ".to_owned();
                line.append(debug_bytes("no value found".as_bytes()).as_str());
                line
            },
            Ok(Reply::Stored) => {
                let mut line = "Got Get error: ".to_owned();
                line.append(describe(&ClientError::UnexpectedResponse).as_str());
                line
            },
            Err(e) => {
                let mut line = "Got Get error: ".to_owned();
                line.append(describe(e).as_str());
                line
            },
        },
        Command::Put { .. } => match result {
            Ok(Reply::Stored) => "Got Set Ok(Ok(()))".to_owned(),
            Ok(Reply::Value(_)) => {
                let mut line = "Got Set error: ".to_owned();
                line.append(describe(&ClientError::UnexpectedResponse).as_str());
                line
            },
            Err(e) => {
                let mut line = "Got Set error: ".to_owned();
                line.append(describe(e).as_str());
                line
            },
        },
    }
}

} // verus!
