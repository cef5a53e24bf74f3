//! Commands: what a request frame asks for.
//!
//! A request is an array whose first item names the command and whose other
//! items are its arguments: `GET key` or `SET key value`. The name is matched
//! without regard to ASCII case. Anything else is refused with a
//! [`CommandError`], which the server reports to the peer and survives.

use vstd::prelude::*;
use vstd::slice::slice_to_vec;
use vstd::string::*;
use vstd::utf8::*;
use crate::frame::{lemma_views, line_safe, views, Frame, FrameView, Line};
use crate::text::{lemma_plain_text_line_safe, plain, text_from_utf8};

verus! {

/// A request.
#[derive(Debug, PartialEq, Eq)]
pub enum Command {
    /// Asks for the value stored under `key`.
    Get { key: String },
    /// Stores `value` under `key`; on the wire this is `SET`.
    Put { key: String, value: Vec<u8> },
}

/// The mathematical value of a [`Command`].
pub enum CommandView {
    Get { key: Seq<char> },
    Put { key: Seq<char>, value: Seq<u8> },
}

impl View for Command {
    type V = CommandView;

    open spec fn view(&self) -> CommandView {
        match self {
            Command::Get { key } => CommandView::Get { key: key@ },
            Command::Put { key, value } => CommandView::Put { key: key@, value: value@ },
        }
    }
}

impl Clone for Command {
    fn clone(&self) -> (r: Command)
        ensures
            r@ == self@,
    {
        match self {
            Command::Get { key } => Command::Get { key: key.clone() },
            Command::Put { key, value } => {
                let copy = value.clone();
                Command::Put { key: key.clone(), value: copy }
            },
        }
    }
}

/// Why a frame is no request.
#[derive(Debug, Clone, Copy, PartialEq, Eq, Structural)]
pub enum CommandError {
    /// The frame is not an array.
    NotArray,
    /// The array is empty: there is no command name.
    MissingName,
    /// The first item is neither a simple nor a bulk frame.
    InvalidName,
    /// The command name is neither `GET` nor `SET`.
    UnknownCommand,
    /// `GET` does not have one argument, or `SET` does not have two.
    WrongArity,
    /// The key is not a simple frame or a bulk frame of UTF-8 text.
    InvalidKey,
    /// The value is neither a simple nor a bulk frame.
    InvalidValue,
}

impl CommandError {
    /// The message that tells the peer what was wrong with its request.
    pub open spec fn message_text(self) -> Seq<char> {
        match self {
            CommandError::NotArray => "ERR request is not an array"@,
            CommandError::MissingName => "ERR request is empty"@,
            CommandError::InvalidName => "ERR command name is not a string"@,
            CommandError::UnknownCommand => "ERR unknown command"@,
            CommandError::WrongArity => "ERR wrong number of arguments"@,
            CommandError::InvalidKey => "ERR key is not text"@,
            CommandError::InvalidValue => "ERR value is not a string"@,
        }
    }

    /// The message that tells the peer what was wrong with its request.
    pub fn message(&self) -> (text: String)
        ensures
            text@ == self.message_text(),
    {
        match self {
            CommandError::NotArray => "ERR request is not an array".to_owned(),
            CommandError::MissingName => "ERR request is empty".to_owned(),
            CommandError::InvalidName => "ERR command name is not a string".to_owned(),
            CommandError::UnknownCommand => "ERR unknown command".to_owned(),
            CommandError::WrongArity => "ERR wrong number of arguments".to_owned(),
            CommandError::InvalidKey => "ERR key is not text".to_owned(),
            CommandError::InvalidValue => "ERR value is not a string".to_owned(),
        }
    }

    /// The message as the line of an error frame.
    pub fn line(&self) -> (line: Line)
        ensures
            line@ == self.message_text(),
    {
        proof {
            self.lemma_message_line_safe();
        }
        Line::from_fitting(self.message())
    }

    /// Every message fits on one line, so it can be sent as an error frame.
    pub proof fn lemma_message_line_safe(self)
        ensures
            plain(self.message_text()),
            line_safe(encode_utf8(self.message_text())),
    {
        reveal_strlit("ERR request is not an array");
        reveal_strlit("ERR request is empty");
        reveal_strlit("ERR command name is not a string");
        reveal_strlit("ERR unknown command");
        reveal_strlit("ERR wrong number of arguments");
        reveal_strlit("ERR key is not text");
        reveal_strlit("ERR value is not a string");
        lemma_plain_text_line_safe(self.message_text());
    }
}

/// `b` with an ASCII upper-case letter turned into its lower-case form.
pub open spec fn lower(b: u8) -> u8 {
    if 65 <= b && b <= 90 {
        (b + 32) as u8
    } else {
        b
    }
}

/// Whether `bytes` is `word` up to ASCII case; `word` is in lower case.
pub open spec fn spells(bytes: Seq<u8>, word: Seq<u8>) -> bool {
    &&& bytes.len() == word.len()
    &&& forall|i: int| 0 <= i < bytes.len() ==> lower(#[trigger] bytes[i]) == word[i]
}

/// The command name `get`, as requests spell it.
pub open spec fn get_name() -> Seq<u8> {
    seq![103u8, 101u8, 116u8]
}

/// The command name `set`, as requests spell it.
pub open spec fn set_name() -> Seq<u8> {
    seq![115u8, 101u8, 116u8]
}

/// The bytes that an item of a request holds: the payload of a bulk frame, or
/// the text of a simple frame as UTF-8.
pub open spec fn bytes_of(item: FrameView) -> Option<Seq<u8>> {
    match item {
        FrameView::Simple(text) => Some(encode_utf8(text)),
        FrameView::Bulk(bytes) => Some(bytes),
        _ => None,
    }
}

/// The text that an item of a request holds: the text of a simple frame, or
/// the payload of a bulk frame where it is UTF-8.
pub open spec fn text_of(item: FrameView) -> Option<Seq<char>> {
    match item {
        FrameView::Simple(text) => Some(text),
        FrameView::Bulk(bytes) => if valid_utf8(bytes) {
            Some(decode_utf8(bytes))
        } else {
            None
        },
        _ => None,
    }
}

/// The request that `frame` makes, or why it makes none.
pub open spec fn command_of(frame: FrameView) -> Result<CommandView, CommandError> {
    match frame {
        FrameView::Array(items) => {
            if items.len() == 0 {
                Err(CommandError::MissingName)
            } else {
                match bytes_of(items[0]) {
                    None => Err(CommandError::InvalidName),
                    Some(name) => {
                        if spells(name, get_name()) {
                            if items.len() != 2 {
                                Err(CommandError::WrongArity)
                            } else {
                                match text_of(items[1]) {
                                    Some(key) => Ok(CommandView::Get { key }),
                                    None => Err(CommandError::InvalidKey),
                                }
                            }
                        } else if spells(name, set_name()) {
                            if items.len() != 3 {
                                Err(CommandError::WrongArity)
                            } else {
                                match text_of(items[1]) {
                                    Some(key) => match bytes_of(items[2]) {
                                        Some(value) => Ok(CommandView::Put { key, value }),
                                        None => Err(CommandError::InvalidValue),
                                    },
                                    None => Err(CommandError::InvalidKey),
                                }
                            }
                        } else {
                            Err(CommandError::UnknownCommand)
                        }
                    },
                }
            }
        },
        _ => Err(CommandError::NotArray),
    }
}

/// The request frame that asks for `command`: an array of bulk frames.
pub open spec fn request_for(command: CommandView) -> FrameView {
    match command {
        CommandView::Get { key } => FrameView::Array(
            seq![FrameView::Bulk(get_name()), FrameView::Bulk(encode_utf8(key))],
        ),
        CommandView::Put { key, value } => FrameView::Array(
            seq![
                FrameView::Bulk(set_name()),
                FrameView::Bulk(encode_utf8(key)),
                FrameView::Bulk(value),
            ],
        ),
    }
}

/// What `result` stands for.
pub open spec fn command_result_view(result: Result<Command, CommandError>) -> Result<
    CommandView,
    CommandError,
> {
    match result {
        Ok(command) => Ok(command@),
        Err(e) => Err(e),
    }
}

/// ASCII lower case of one byte.
fn to_lower(b: u8) -> (r: u8)
    ensures
        r == lower(b),
{
    if 65 <= b && b <= 90 {
        b + 32
    } else {
        b
    }
}

/// Whether `bytes` spells the three-letter lower-case word `a b c` up to ASCII
/// case.
fn spells_word(bytes: &[u8], a: u8, b: u8, c: u8) -> (r: bool)
    ensures
        r == spells(bytes@, seq![a, b, c]),
{
    if bytes.len() != 3 {
        return false;
    }
    let r = to_lower(bytes[0]) == a && to_lower(bytes[1]) == b && to_lower(bytes[2]) == c;
    proof {
        let word = seq![a, b, c];
        if r {
            assert forall|i: int| 0 <= i < bytes@.len() implies lower(#[trigger] bytes@[i])
                == word[i] by {}
        } else if spells(bytes@, word) {
            assert(lower(bytes@[0]) == word[0]);
            assert(lower(bytes@[1]) == word[1]);
            assert(lower(bytes@[2]) == word[2]);
        }
    }
    r
}

/// The bytes that `item` holds, if it is a simple or a bulk frame.
fn item_bytes(item: &Frame) -> (r: Option<Vec<u8>>)
    ensures
        match bytes_of(item@) {
            Some(bytes) => r matches Some(v) && v@ == bytes,
            None => r is None,
        },
{
    match item {
        Frame::Simple(text) => Some(slice_to_vec(text.as_str().as_bytes())),
        Frame::Bulk(bytes) => {
            let copy = bytes.clone();
            Some(copy)
        },
        _ => None,
    }
}

/// The text that `item` holds, if it is a simple frame or a bulk frame of
/// UTF-8.
fn item_text(item: &Frame) -> (r: Option<String>)
    ensures
        match text_of(item@) {
            Some(text) => r matches Some(s) && s@ == text,
            None => r is None,
        },
{
    match item {
        Frame::Simple(text) => Some(text.as_str().to_owned()),
        Frame::Bulk(bytes) => {
            let copy = bytes.clone();
            match text_from_utf8(copy) {
                Some(text) => {
                    proof {
                        encode_utf8_decode_utf8(text@);
                    }
                    Some(text)
                },
                None => None,
            }
        },
        _ => None,
    }
}

impl Command {
    /// Reads the request that `frame` makes.
    pub fn from_frame(frame: Frame) -> (r: Result<Command, CommandError>)
        ensures
            command_result_view(r) == command_of(frame@),
    {
        let items = match frame {
            Frame::Array(items) => items,
            _ => {
                return Err(CommandError::NotArray);
            },
        };
        proof {
            lemma_views(items@, items@.len());
        }
        if items.len() == 0 {
            return Err(CommandError::MissingName);
        }
        let name = match item_bytes(&items[0]) {
            Some(name) => name,
            None => {
                return Err(CommandError::InvalidName);
            },
        };
        if spells_word(name.as_slice(), 103, 101, 116) {
            if items.len() != 2 {
                return Err(CommandError::WrongArity);
            }
            match item_text(&items[1]) {
                Some(key) => Ok(Command::Get { key }),
                None => Err(CommandError::InvalidKey),
            }
        } else if spells_word(name.as_slice(), 115, 101, 116) {
            if items.len() != 3 {
                return Err(CommandError::WrongArity);
            }
            let key = match item_text(&items[1]) {
                Some(key) => key,
                None => {
                    return Err(CommandError::InvalidKey);
                },
            };
            match item_bytes(&items[2]) {
                Some(value) => Ok(Command::Put { key, value }),
                None => Err(CommandError::InvalidValue),
            }
        } else {
            Err(CommandError::UnknownCommand)
        }
    }

    /// The request frame that asks for this command. It is read back as this
    /// command.
    pub fn to_frame(&self) -> (frame: Frame)
        ensures
            frame@ == request_for(self@),
            command_of(frame@) == Ok::<CommandView, CommandError>(self@),
    {
        let mut items: Vec<Frame> = Vec::new();
        match self {
            Command::Get { key } => {
                let mut name: Vec<u8> = Vec::new();
                name.push(103);
                name.push(101);
                name.push(116);
                assert(name@ =~= get_name());
                items.push(Frame::Bulk(name));
                items.push(Frame::Bulk(slice_to_vec(key.as_str().as_bytes())));
            },
            Command::Put { key, value } => {
                let mut name: Vec<u8> = Vec::new();
                name.push(115);
                name.push(101);
                name.push(116);
                assert(name@ =~= set_name());
                let copy = value.clone();
                items.push(Frame::Bulk(name));
                items.push(Frame::Bulk(slice_to_vec(key.as_str().as_bytes())));
                items.push(Frame::Bulk(copy));
            },
        }
        proof {
            lemma_views(items@, items@.len());
            assert(views(items@, items@.len()) =~= request_for(self@)->Array_0);
            assert(items@[1]@->Bulk_0.len() == items@[1]->Bulk_0.len());
            if self is Put {
                assert(items@[2]@->Bulk_0.len() == items@[2]->Bulk_0.len());
            }
            lemma_request_roundtrip(self@);
        }
        Frame::Array(items)
    }
}

/// Whether the key and the value of `command` fit the length field of a
/// frame. This holds of every command in a running program.
pub open spec fn fits(command: CommandView) -> bool {
    match command {
        CommandView::Get { key } => encode_utf8(key).len() <= u64::MAX,
        CommandView::Put { key, value } => encode_utf8(key).len() <= u64::MAX && value.len()
            <= u64::MAX,
    }
}

/// A request frame is well-formed and is read back as the command it was made
/// for.
pub proof fn lemma_request_roundtrip(command: CommandView)
    requires
        fits(command),
    ensures
        request_for(command).wf(),
        command_of(request_for(command)) == Ok::<CommandView, CommandError>(command),
{
    let items = request_for(command)->Array_0;
    assert(!spells(set_name(), get_name())) by {
        if spells(set_name(), get_name()) {
            assert(lower(set_name()[0]) == get_name()[0]);
        }
    }
    match command {
        CommandView::Get { key } => {
            encode_utf8_valid_utf8(key);
            encode_utf8_decode_utf8(key);
            assert forall|i: int| 0 <= i < items.len() implies (#[trigger] items[i]).wf() by {
                assert(i == 0 || i == 1);
            }
        },
        CommandView::Put { key, value } => {
            encode_utf8_valid_utf8(key);
            encode_utf8_decode_utf8(key);
            assert forall|i: int| 0 <= i < items.len() implies (#[trigger] items[i]).wf() by {
                assert(i == 0 || i == 1 || i == 2);
            }
        },
    }
}

} // verus!
