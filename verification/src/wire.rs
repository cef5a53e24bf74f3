//! The wire format, stated mathematically: how a frame is spelled in bytes and
//! how a buffer of bytes is read as a frame.
//!
//! Every frame starts with a marker byte and a line that ends in CR LF:
//!
//! | frame      | bytes                                   |
//! |------------|-----------------------------------------|
//! | `Simple`   | `+` text CR LF                          |
//! | `Error`    | `-` text CR LF                          |
//! | `Integer`  | `:` number CR LF                        |
//! | `Bulk`     | `$` length CR LF payload CR LF          |
//! | `Null`     | `$-1` CR LF                             |
//! | `Array`    | `*` count CR LF, then the items in turn |
//!
//! Numbers are decimal without sign or leading zeros, so each frame has exactly
//! one spelling. The format follows the Redis serialization protocol in its
//! simple strings, errors, integers, bulk strings, null bulk string and arrays.

use vstd::prelude::*;
use vstd::utf8::*;
use crate::decimal::{digits, number};
use crate::frame::{FrameView, CR, LF};

verus! {

/// Marker of a `Simple` frame: `+`.
pub const SIMPLE: u8 = 43;

/// Marker of an `Error` frame: `-`.
pub const ERROR: u8 = 45;

/// Marker of an `Integer` frame: `:`.
pub const INTEGER: u8 = 58;

/// Marker of a `Bulk` or `Null` frame: `$`.
pub const BULK: u8 = 36;

/// Marker of an `Array` frame: `*`.
pub const ARRAY: u8 = 42;

/// Why a buffer cannot be the start of any frame. After such an error the
/// stream is out of step and the connection has to be closed.
#[derive(Debug, Clone, Copy, PartialEq, Eq, Structural)]
pub enum ProtocolError {
    /// The frame starts with a byte that is no marker.
    UnknownMarker(u8),
    /// The text of a `Simple` or `Error` frame is not UTF-8.
    InvalidText,
    /// A number, length or count is not a canonical decimal of at most 64 bits.
    InvalidNumber,
    /// The payload of a `Bulk` frame is not followed by CR LF.
    MissingTerminator,
}

/// Whether `b` starts a frame.
pub open spec fn is_marker(b: u8) -> bool {
    b == SIMPLE || b == ERROR || b == INTEGER || b == BULK || b == ARRAY
}

/// The line terminator.
pub open spec fn crlf() -> Seq<u8> {
    seq![CR, LF]
}

/// The line of a `Null` frame: `-1`.
pub open spec fn null_line() -> Seq<u8> {
    seq![45u8, 49u8]
}

/// The bytes that spell `f`.
pub open spec fn encoding(f: FrameView) -> Seq<u8>
    decreases f, 0nat,
{
    match f {
        FrameView::Simple(text) => seq![SIMPLE] + encode_utf8(text) + crlf(),
        FrameView::Error(text) => seq![ERROR] + encode_utf8(text) + crlf(),
        FrameView::Integer(n) => seq![INTEGER] + digits(n as nat) + crlf(),
        FrameView::Bulk(bytes) => seq![BULK] + digits(bytes.len()) + crlf() + bytes + crlf(),
        FrameView::Null => seq![BULK] + null_line() + crlf(),
        FrameView::Array(items) => seq![ARRAY] + digits(items.len()) + crlf() + encoding_from(
            items,
            0,
        ),
    }
}

/// The bytes that spell `items[k..]`, one frame after the other.
pub open spec fn encoding_from(items: Seq<FrameView>, k: nat) -> Seq<u8>
    decreases items, items.len() - k,
{
    if k >= items.len() {
        Seq::empty()
    } else {
        encoding(items[k as int]) + encoding_from(items, k + 1)
    }
}

/// The index of the first line terminator of `buf` at or after `pos`, or -1 if
/// there is none.
pub open spec fn line_end(buf: Seq<u8>, pos: int) -> int
    decreases buf.len() - pos,
{
    if pos < 0 || pos + 1 >= buf.len() {
        -1
    } else if buf[pos] == CR && buf[pos + 1] == LF {
        pos
    } else {
        line_end(buf, pos + 1)
    }
}

/// What reading one frame from a buffer can give.
pub enum Parsed {
    /// A whole frame, and the index of the first byte after it.
    Complete(FrameView, int),
    /// The buffer ends before the frame does: more bytes are needed.
    Incomplete,
    /// No frame starts like this.
    Malformed(ProtocolError),
}

/// What reading a run of frames from a buffer can give.
pub enum ParsedItems {
    /// All the frames, and the index of the first byte after the last.
    Complete(Seq<FrameView>, int),
    /// The buffer ends before the last frame does.
    Incomplete,
    /// One of the frames is malformed.
    Malformed(ProtocolError),
}

impl ParsedItems {
    /// The items read, as one `Array` frame.
    pub open spec fn as_array(self) -> Parsed {
        match self {
            ParsedItems::Complete(items, end) => Parsed::Complete(FrameView::Array(items), end),
            ParsedItems::Incomplete => Parsed::Incomplete,
            ParsedItems::Malformed(e) => Parsed::Malformed(e),
        }
    }
}

/// Reads the frame that starts at index `pos` of `buf`.
pub open spec fn parse_at(buf: Seq<u8>, pos: int) -> Parsed
    decreases buf.len() - pos, 0nat,
{
    if pos < 0 || pos >= buf.len() {
        Parsed::Incomplete
    } else if !is_marker(buf[pos]) {
        Parsed::Malformed(ProtocolError::UnknownMarker(buf[pos]))
    } else {
        let cr = line_end(buf, pos + 1);
        if cr <= pos || cr + 2 > buf.len() {
            Parsed::Incomplete
        } else {
            let line = buf.subrange(pos + 1, cr);
            let next = cr + 2;
            if buf[pos] == SIMPLE {
                if valid_utf8(line) {
                    Parsed::Complete(FrameView::Simple(decode_utf8(line)), next)
                } else {
                    Parsed::Malformed(ProtocolError::InvalidText)
                }
            } else if buf[pos] == ERROR {
                if valid_utf8(line) {
                    Parsed::Complete(FrameView::Error(decode_utf8(line)), next)
                } else {
                    Parsed::Malformed(ProtocolError::InvalidText)
                }
            } else if buf[pos] == INTEGER {
                match number(line) {
                    Some(n) => Parsed::Complete(FrameView::Integer(n), next),
                    None => Parsed::Malformed(ProtocolError::InvalidNumber),
                }
            } else if buf[pos] == BULK {
                match number(line) {
                    Some(n) => {
                        let stop = next + n;
                        if buf.len() < stop + 2 {
                            Parsed::Incomplete
                        } else if buf[stop] == CR && buf[stop + 1] == LF {
                            Parsed::Complete(FrameView::Bulk(buf.subrange(next, stop)), stop + 2)
                        } else {
                            Parsed::Malformed(ProtocolError::MissingTerminator)
                        }
                    },
                    None => if line == null_line() {
                        Parsed::Complete(FrameView::Null, next)
                    } else {
                        Parsed::Malformed(ProtocolError::InvalidNumber)
                    },
                }
            } else {
                match number(line) {
                    Some(n) => parse_items(buf, next, n as nat, Seq::empty()).as_array(),
                    None => Parsed::Malformed(ProtocolError::InvalidNumber),
                }
            }
        }
    }
}

/// Reads `n` frames one after the other, the first at index `pos` of `buf`,
/// and appends them to `acc`.
pub open spec fn parse_items(buf: Seq<u8>, pos: int, n: nat, acc: Seq<FrameView>) -> ParsedItems
    decreases buf.len() - pos, n + 1,
{
    if n == 0 {
        ParsedItems::Complete(acc, pos)
    } else {
        match parse_at(buf, pos) {
            Parsed::Complete(f, end) => if pos < end <= buf.len() {
                parse_items(buf, end, (n - 1) as nat, acc.push(f))
            } else {
                ParsedItems::Incomplete
            },
            Parsed::Incomplete => ParsedItems::Incomplete,
            Parsed::Malformed(e) => ParsedItems::Malformed(e),
        }
    }
}

/// Reads the frame at the front of `buf`.
pub open spec fn decoding(buf: Seq<u8>) -> Parsed {
    parse_at(buf, 0)
}

} // verus!
