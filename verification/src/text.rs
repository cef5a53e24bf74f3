//! Conversions between bytes and text.

use vstd::prelude::*;
use vstd::utf8::*;
use crate::frame::{crlf_at, line_safe};

verus! {

/// Whether `text` is printable ASCII: letters, digits, punctuation and spaces.
pub open spec fn plain(text: Seq<char>) -> bool {
    forall|i: int| 0 <= i < text.len() ==> ' ' <= #[trigger] text[i] <= '~'
}

/// Printable ASCII text is spelled in UTF-8 with one byte for each character,
/// and none of these bytes ends a line.
pub proof fn lemma_plain_text_line_safe(text: Seq<char>)
    requires
        plain(text),
    ensures
        encode_utf8(text).len() == text.len(),
        forall|i: int| 0 <= i < text.len() ==> encode_utf8(text)[i] == (#[trigger] text[i]) as u8,
        line_safe(encode_utf8(text)),
{
    assert(is_ascii_chars(text)) by {
        assert forall|i: int| 0 <= i < text.len() implies '\0' <= #[trigger] text[i]
            <= '\u{7f}' by {
            assert(' ' <= text[i] <= '~');
        }
    }
    is_ascii_chars_encode_utf8(text);
    let bytes = encode_utf8(text);
    assert forall|i: int| !crlf_at(bytes, i) by {
        if 0 <= i && i + 1 < bytes.len() {
            assert(' ' <= text[i] <= '~');
        }
    }
}

/// `String::from_utf8` of std, not proved here: the bytes become a string
/// exactly when they are valid UTF-8, and the string then consists of these
/// very bytes.
#[verifier::external_body]
pub(crate) fn text_from_utf8(bytes: Vec<u8>) -> (r: Option<String>)
    ensures
        r is Some <==> valid_utf8(bytes@),
        r matches Some(text) ==> encode_utf8(text@) == bytes@,
{
    String::from_utf8(bytes).ok()
}

/// The hexadecimal digit, in lower case, of a number below 16.
pub open spec fn hex_digit(d: u8) -> char {
    if d < 10 {
        (d + 48) as char
    } else {
        (d + 87) as char
    }
}

/// How one byte is written inside a byte-string literal: printable ASCII as
/// itself, with a backslash before `\` and `"`; line feed, carriage return,
/// tab and zero as `\n`, `\r`, `\t` and `\0`; every other byte as `\x` and
/// two hexadecimal digits.
pub open spec fn escaped(b: u8) -> Seq<char> {
    if b == 10 {
        seq!['\\', 'n']
    } else if b == 13 {
        seq!['\\', 'r']
    } else if b == 9 {
        seq!['\\', 't']
    } else if b == 92 || b == 34 {
        seq!['\\', b as char]
    } else if b == 0 {
        seq!['\\', '0']
    } else if 32 <= b && b < 127 {
        seq![b as char]
    } else {
        seq!['\\', 'x', hex_digit(b / 16), hex_digit(b % 16)]
    }
}

/// The bytes of `bytes`, each written as inside a byte-string literal.
pub open spec fn escaped_all(bytes: Seq<u8>) -> Seq<char>
    decreases bytes.len(),
{
    if bytes.len() == 0 {
        Seq::empty()
    } else {
        escaped_all(bytes.drop_last()) + escaped(bytes.last())
    }
}

/// `bytes` written as a byte-string literal: `b"`, the escaped bytes, `"`.
pub open spec fn byte_literal(bytes: Seq<u8>) -> Seq<char> {
    seq!['b', '"'] + escaped_all(bytes) + seq!['"']
}

/// The `Debug` form of `bytes::Bytes`, not proved here: the bytes written as a
/// byte-string literal, as `escaped` spells each of them.
#[verifier::external_body]
pub(crate) fn debug_bytes(bytes: &[u8]) -> (text: String)
    ensures
        text@ == byte_literal(bytes@),
{
    format!("{:?}", bytes::Bytes::copy_from_slice(bytes))
}

} // verus!
