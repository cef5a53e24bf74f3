//! What holds of the wire format: a frame is read back from its own bytes
//! whatever follows them, nothing is read from less than all of them, and
//! nothing but a frame's one spelling is read as that frame.

use vstd::prelude::*;
use vstd::utf8::*;
use crate::decimal::{digits, is_digit, lemma_digits_value, lemma_value_digits, number};
use crate::frame::{crlf_at, line_safe, FrameView, CR, LF};
use crate::wire::{
    crlf, decoding, encoding, encoding_from, is_marker, line_end, null_line, parse_at,
    parse_items, Parsed, ParsedItems, ProtocolError, ARRAY, BULK, ERROR, INTEGER, SIMPLE,
};

verus! {

/// The line that follows the marker in the spelling of `f`.
pub open spec fn header_line(f: FrameView) -> Seq<u8> {
    match f {
        FrameView::Simple(text) => encode_utf8(text),
        FrameView::Error(text) => encode_utf8(text),
        FrameView::Integer(n) => digits(n as nat),
        FrameView::Bulk(bytes) => digits(bytes.len()),
        FrameView::Null => null_line(),
        FrameView::Array(items) => digits(items.len()),
    }
}

/// The marker that starts the spelling of `f`.
pub open spec fn marker_of(f: FrameView) -> u8 {
    match f {
        FrameView::Simple(_) => SIMPLE,
        FrameView::Error(_) => ERROR,
        FrameView::Integer(_) => INTEGER,
        FrameView::Bulk(_) => BULK,
        FrameView::Null => BULK,
        FrameView::Array(_) => ARRAY,
    }
}

/// What follows the first line in the spelling of `f`.
pub open spec fn body_of(f: FrameView) -> Seq<u8> {
    match f {
        FrameView::Bulk(bytes) => bytes + crlf(),
        FrameView::Array(items) => encoding_from(items, 0),
        _ => Seq::empty(),
    }
}

/// A spelling is a marker, a line, a line terminator and a body.
pub proof fn lemma_encoding_shape(f: FrameView)
    ensures
        encoding(f) == seq![marker_of(f)] + header_line(f) + crlf() + body_of(f),
        encoding(f).len() == header_line(f).len() + 3 + body_of(f).len(),
        is_marker(marker_of(f)),
{
}

/// A line of digits holds no line terminator.
proof fn lemma_digits_line_safe(s: Seq<u8>)
    requires
        forall|i: int| 0 <= i < s.len() ==> is_digit(#[trigger] s[i]),
    ensures
        line_safe(s),
{
    assert forall|i: int| !crlf_at(s, i) by {}
}

/// The first line of a well-formed frame holds no line terminator.
proof fn lemma_header_line_safe(f: FrameView)
    requires
        f.wf(),
    ensures
        line_safe(header_line(f)),
{
    match f {
        FrameView::Simple(_) => {},
        FrameView::Error(_) => {},
        FrameView::Integer(n) => {
            lemma_digits_value(n as nat);
            lemma_digits_line_safe(digits(n as nat));
        },
        FrameView::Bulk(bytes) => {
            lemma_digits_value(bytes.len());
            lemma_digits_line_safe(digits(bytes.len()));
        },
        FrameView::Null => {
            assert forall|i: int| !crlf_at(null_line(), i) by {}
        },
        FrameView::Array(items) => {
            lemma_digits_value(items.len());
            lemma_digits_line_safe(digits(items.len()));
        },
    }
}

/// `line_end` finds a terminator that no other precedes.
proof fn lemma_line_end_found(buf: Seq<u8>, pos: int, cr: int)
    requires
        0 <= pos <= cr,
        crlf_at(buf, cr),
        forall|j: int| pos <= j < cr ==> !crlf_at(buf, j),
    ensures
        line_end(buf, pos) == cr,
    decreases cr - pos,
{
    if pos < cr {
        assert(!crlf_at(buf, pos));
        lemma_line_end_found(buf, pos + 1, cr);
    }
}

/// `line_end` finds nothing where there is no terminator.
proof fn lemma_line_end_none(buf: Seq<u8>, pos: int)
    requires
        0 <= pos,
        forall|j: int| pos <= j ==> !crlf_at(buf, j),
    ensures
        line_end(buf, pos) == -1,
    decreases buf.len() - pos,
{
    if pos + 1 < buf.len() {
        assert(!crlf_at(buf, pos));
        lemma_line_end_none(buf, pos + 1);
    }
}

/// What `line_end` finds is the first terminator at or after `pos`.
proof fn lemma_line_end_first(buf: Seq<u8>, pos: int)
    requires
        0 <= pos,
    ensures
        line_end(buf, pos) == -1 || pos <= line_end(buf, pos),
        line_end(buf, pos) >= 0 ==> crlf_at(buf, line_end(buf, pos)),
        forall|j: int| pos <= j < line_end(buf, pos) ==> !crlf_at(buf, j),
    decreases buf.len() - pos,
{
    if pos + 1 < buf.len() && !(buf[pos] == CR && buf[pos + 1] == LF) {
        lemma_line_end_first(buf, pos + 1);
    }
}

/// Where `buf` holds, from `pos` on, a marker, a line without terminator and a
/// terminator, this line is the first line after the marker.
proof fn lemma_first_line(buf: Seq<u8>, pos: int, marker: u8, line: Seq<u8>)
    requires
        0 <= pos,
        pos + line.len() + 3 <= buf.len(),
        buf.subrange(pos, pos + line.len() + 3) == seq![marker] + line + crlf(),
        line_safe(line),
    ensures
        buf[pos] == marker,
        line_end(buf, pos + 1) == pos + 1 + line.len(),
        buf.subrange(pos + 1, pos + 1 + line.len()) == line,
{
    let head = seq![marker] + line + crlf();
    let cr = pos + 1 + line.len();
    assert forall|j: int| pos <= j < pos + line.len() + 3 implies buf[j] == head[j - pos] by {}
    assert forall|j: int| pos + 1 <= j < cr implies !crlf_at(buf, j) by {
        assert(!crlf_at(line, j - pos - 1));
    }
    lemma_line_end_found(buf, pos + 1, cr);
}

/// Where `buf` ends inside the first line of a frame, no line ends in `buf`.
proof fn lemma_no_line(buf: Seq<u8>, pos: int, marker: u8, line: Seq<u8>)
    requires
        0 <= pos < buf.len(),
        buf.len() < pos + line.len() + 3,
        buf.subrange(pos, buf.len() as int) == (seq![marker] + line + crlf()).take(buf.len() - pos),
        line_safe(line),
    ensures
        buf[pos] == marker,
        line_end(buf, pos + 1) == -1,
{
    let head = seq![marker] + line + crlf();
    assert forall|j: int| pos <= j < buf.len() implies buf[j] == head[j - pos] by {
        assert(buf.subrange(pos, buf.len() as int)[j - pos] == buf[j]);
    }
    assert forall|j: int| pos + 1 <= j implies !crlf_at(buf, j) by {
        if j + 1 < buf.len() {
            assert(!crlf_at(line, j - pos - 1));
        }
    }
    lemma_line_end_none(buf, pos + 1);
}

/// The number line of a length or count is read back as that number.
proof fn lemma_number_digits(n: nat)
    requires
        n <= u64::MAX,
    ensures
        number(digits(n)) == Some(n as u64),
{
    lemma_digits_value(n);
}

/// The frames `items[k..]` are read back from their own bytes, whatever
/// follows, and appended to what was read before.
proof fn lemma_items_read_back(
    buf: Seq<u8>,
    pos: int,
    items: Seq<FrameView>,
    k: nat,
    acc: Seq<FrameView>,
)
    requires
        k <= items.len(),
        forall|i: int| 0 <= i < items.len() ==> (#[trigger] items[i]).wf(),
        0 <= pos,
        pos + encoding_from(items, k).len() <= buf.len(),
        buf.subrange(pos, pos + encoding_from(items, k).len()) == encoding_from(items, k),
    ensures
        parse_items(buf, pos, (items.len() - k) as nat, acc) == ParsedItems::Complete(
            acc + items.skip(k as int),
            pos + encoding_from(items, k).len(),
        ),
    decreases items, items.len() - k,
{
    if k < items.len() {
        let item = items[k as int];
        let rest = encoding_from(items, k + 1);
        let mid = pos + encoding(item).len();
        lemma_encoding_shape(item);
        assert(buf.subrange(pos, mid) =~= encoding(item)) by {
            assert(buf.subrange(pos, mid) =~= buf.subrange(
                pos,
                pos + encoding_from(items, k).len(),
            ).subrange(0, encoding(item).len() as int));
        }
        lemma_read_back(buf, pos, item);
        assert(buf.subrange(mid, mid + rest.len()) =~= rest) by {
            assert(buf.subrange(mid, mid + rest.len()) =~= buf.subrange(
                pos,
                pos + encoding_from(items, k).len(),
            ).subrange(encoding(item).len() as int, encoding_from(items, k).len() as int));
        }
        lemma_items_read_back(buf, mid, items, k + 1, acc.push(item));
        assert(acc.push(item) + items.skip(k as int + 1) =~= acc + items.skip(k as int));
    }
}

/// A well-formed frame is read back from its own bytes, wherever in a buffer
/// they stand and whatever follows them.
pub proof fn lemma_read_back(buf: Seq<u8>, pos: int, f: FrameView)
    requires
        f.wf(),
        0 <= pos,
        pos + encoding(f).len() <= buf.len(),
        buf.subrange(pos, pos + encoding(f).len()) == encoding(f),
    ensures
        parse_at(buf, pos) == Parsed::Complete(f, pos + encoding(f).len()),
    decreases f, 0nat,
{
    let line = header_line(f);
    let enc = encoding(f);
    let cr = pos + 1 + line.len();
    let next = cr + 2;
    lemma_encoding_shape(f);
    lemma_header_line_safe(f);
    assert(buf.subrange(pos, pos + line.len() + 3) =~= seq![marker_of(f)] + line + crlf()) by {
        assert(buf.subrange(pos, pos + line.len() + 3) =~= buf.subrange(
            pos,
            pos + enc.len(),
        ).subrange(0, line.len() as int + 3));
    }
    lemma_first_line(buf, pos, marker_of(f), line);
    assert forall|j: int| 0 <= j < body_of(f).len() implies buf[next + j] == body_of(f)[j] by {
        assert(buf.subrange(pos, pos + enc.len())[next - pos + j] == buf[next + j]);
    }
    match f {
        FrameView::Simple(text) => {
            encode_utf8_valid_utf8(text);
            encode_utf8_decode_utf8(text);
        },
        FrameView::Error(text) => {
            encode_utf8_valid_utf8(text);
            encode_utf8_decode_utf8(text);
        },
        FrameView::Integer(n) => {
            lemma_number_digits(n as nat);
        },
        FrameView::Bulk(bytes) => {
            lemma_number_digits(bytes.len());
            let stop = next + bytes.len();
            assert(buf[stop] == body_of(f)[bytes.len() as int]);
            assert(buf[stop + 1] == body_of(f)[bytes.len() as int + 1]);
            assert(buf.subrange(next, stop) =~= bytes) by {
                assert forall|j: int| 0 <= j < bytes.len() implies buf[next + j] == bytes[j] by {
                    assert(body_of(f)[j] == bytes[j]);
                }
            }
        },
        FrameView::Null => {},
        FrameView::Array(items) => {
            lemma_number_digits(items.len());
            assert(buf.subrange(next, next + encoding_from(items, 0).len()) =~= encoding_from(
                items,
                0,
            ));
            lemma_items_read_back(buf, next, items, 0, Seq::empty());
            assert(Seq::<FrameView>::empty() + items.skip(0) =~= items);
        },
    }
}

/// Where the buffer ends inside the bytes of the frames `items[k..]`, reading
/// them asks for more bytes.
proof fn lemma_items_cut_short(
    buf: Seq<u8>,
    pos: int,
    items: Seq<FrameView>,
    k: nat,
    acc: Seq<FrameView>,
)
    requires
        k <= items.len(),
        forall|i: int| 0 <= i < items.len() ==> (#[trigger] items[i]).wf(),
        0 <= pos <= buf.len(),
        buf.len() < pos + encoding_from(items, k).len(),
        buf.subrange(pos, buf.len() as int) == encoding_from(items, k).take(buf.len() - pos),
    ensures
        parse_items(buf, pos, (items.len() - k) as nat, acc) == ParsedItems::Incomplete,
    decreases items, items.len() - k,
{
    let item = items[k as int];
    let rest = encoding_from(items, k + 1);
    let mid = pos + encoding(item).len();
    lemma_encoding_shape(item);
    if buf.len() < mid {
        assert(buf.subrange(pos, buf.len() as int) =~= encoding(item).take(buf.len() - pos));
        lemma_cut_short(buf, pos, item);
    } else {
        assert(buf.subrange(pos, mid) =~= encoding(item)) by {
            assert(buf.subrange(pos, mid) =~= buf.subrange(pos, buf.len() as int).subrange(
                0,
                encoding(item).len() as int,
            ));
        }
        lemma_read_back(buf, pos, item);
        assert(buf.subrange(mid, buf.len() as int) =~= rest.take(buf.len() - mid)) by {
            assert(buf.subrange(mid, buf.len() as int) =~= buf.subrange(
                pos,
                buf.len() as int,
            ).subrange(encoding(item).len() as int, buf.len() - pos));
        }
        lemma_items_cut_short(buf, mid, items, k + 1, acc.push(item));
    }
}

/// Where the buffer ends inside the bytes of a well-formed frame, reading the
/// frame asks for more bytes.
pub proof fn lemma_cut_short(buf: Seq<u8>, pos: int, f: FrameView)
    requires
        f.wf(),
        0 <= pos <= buf.len(),
        buf.len() < pos + encoding(f).len(),
        buf.subrange(pos, buf.len() as int) == encoding(f).take(buf.len() - pos),
    ensures
        parse_at(buf, pos) == Parsed::Incomplete,
    decreases f, 0nat,
{
    let line = header_line(f);
    let cr = pos + 1 + line.len();
    let next = cr + 2;
    lemma_encoding_shape(f);
    lemma_header_line_safe(f);
    if pos == buf.len() {
        // Nothing of the frame has arrived.
    } else if buf.len() < next {
        assert(buf.subrange(pos, buf.len() as int) =~= (seq![marker_of(f)] + line + crlf()).take(
            buf.len() - pos,
        ));
        lemma_no_line(buf, pos, marker_of(f), line);
    } else {
        assert(buf.subrange(pos, next) =~= seq![marker_of(f)] + line + crlf()) by {
            assert(buf.subrange(pos, next) =~= buf.subrange(pos, buf.len() as int).subrange(
                0,
                next - pos,
            ));
        }
        lemma_first_line(buf, pos, marker_of(f), line);
        match f {
            FrameView::Bulk(bytes) => {
                lemma_number_digits(bytes.len());
            },
            FrameView::Array(items) => {
                lemma_number_digits(items.len());
                assert(buf.subrange(next, buf.len() as int) =~= encoding_from(items, 0).take(
                    buf.len() - next,
                )) by {
                    assert(buf.subrange(next, buf.len() as int) =~= buf.subrange(
                        pos,
                        buf.len() as int,
                    ).subrange(next - pos, buf.len() - pos));
                }
                lemma_items_cut_short(buf, next, items, 0, Seq::empty());
            },
            _ => {},
        }
    }
}

/// A line found by `line_end` holds no line terminator.
pub proof fn lemma_found_line_safe(buf: Seq<u8>, from: int)
    requires
        0 <= from <= line_end(buf, from),
    ensures
        line_safe(buf.subrange(from, line_end(buf, from))),
        crlf_at(buf, line_end(buf, from)),
{
    let cr = line_end(buf, from);
    let line = buf.subrange(from, cr);
    lemma_line_end_first(buf, from);
    assert forall|i: int| !crlf_at(line, i) by {
        if 0 <= i && i + 1 < line.len() {
            assert(!crlf_at(buf, from + i));
        }
    }
}

/// Frames that were read one after the other are well-formed, and the bytes
/// they were read from are their spellings, one after the other.
proof fn lemma_items_spelled(buf: Seq<u8>, pos: int, n: nat, acc: Seq<FrameView>)
    requires
        0 <= pos <= buf.len(),
        parse_items(buf, pos, n, acc) is Complete,
    ensures
        ({
            let items = parse_items(buf, pos, n, acc)->Complete_0;
            let end = parse_items(buf, pos, n, acc)->Complete_1;
            &&& items.len() == acc.len() + n
            &&& items.take(acc.len() as int) == acc
            &&& pos <= end <= buf.len()
            &&& forall|i: int| acc.len() <= i < items.len() ==> (#[trigger] items[i]).wf()
            &&& buf.subrange(pos, end) == encoding_from(items, acc.len())
        }),
    decreases buf.len() - pos, n + 1,
{
    let items = parse_items(buf, pos, n, acc)->Complete_0;
    if n > 0 {
        let first = parse_at(buf, pos)->Complete_0;
        let mid = parse_at(buf, pos)->Complete_1;
        lemma_spelled(buf, pos);
        lemma_items_spelled(buf, mid, (n - 1) as nat, acc.push(first));
        let k = acc.len() as int;
        assert(items[k] == items.take(k + 1)[k]);
        assert(items.take(k) =~= acc) by {
            assert forall|i: int| 0 <= i < k implies items[i] == acc[i] by {
                assert(items[i] == items.take(k + 1)[i]);
            }
        }
        assert(encoding_from(items, acc.len()) == encoding(items[k]) + encoding_from(
            items,
            acc.len() + 1,
        ));
    }
}

/// A frame that was read is well-formed, and the bytes it was read from are
/// its spelling.
pub proof fn lemma_spelled(buf: Seq<u8>, pos: int)
    requires
        parse_at(buf, pos) is Complete,
    ensures
        ({
            let f = parse_at(buf, pos)->Complete_0;
            let end = parse_at(buf, pos)->Complete_1;
            &&& f.wf()
            &&& pos < end <= buf.len()
            &&& buf.subrange(pos, end) == encoding(f)
        }),
    decreases buf.len() - pos, 0nat,
{
    let f = parse_at(buf, pos)->Complete_0;
    let cr = line_end(buf, pos + 1);
    let line = buf.subrange(pos + 1, cr);
    let next = cr + 2;
    lemma_found_line_safe(buf, pos + 1);
    lemma_encoding_shape(f);
    if buf[pos] == SIMPLE || buf[pos] == ERROR {
        decode_utf8_encode_utf8(line);
    } else if buf[pos] == INTEGER {
        lemma_value_digits(line);
    } else if buf[pos] == BULK {
        if number(line) is Some {
            lemma_value_digits(line);
        }
    } else {
        lemma_value_digits(line);
        lemma_items_spelled(buf, next, number(line)->Some_0 as nat, Seq::empty());
    }
}

/// Decoding gives a frame exactly where the buffer starts with the bytes of a
/// well-formed frame, and then gives that frame and the number of its bytes.
pub proof fn lemma_decoding_complete(buf: Seq<u8>, f: FrameView, used: int)
    ensures
        decoding(buf) == Parsed::Complete(f, used) <==> {
            &&& f.wf()
            &&& 0 < used <= buf.len()
            &&& buf.take(used) == encoding(f)
        },
{
    if decoding(buf) == Parsed::Complete(f, used) {
        lemma_spelled(buf, 0);
    }
    if f.wf() && 0 < used <= buf.len() && buf.take(used) == encoding(f) {
        lemma_read_back(buf, 0, f);
    }
}

/// A line that ends in `buf` ends at the same place when more bytes follow.
proof fn lemma_line_end_stable(buf: Seq<u8>, tail: Seq<u8>, pos: int)
    requires
        0 <= pos <= line_end(buf, pos),
    ensures
        line_end(buf + tail, pos) == line_end(buf, pos),
{
    let big = buf + tail;
    let cr = line_end(buf, pos);
    lemma_line_end_first(buf, pos);
    assert forall|j: int| pos <= j < cr implies !crlf_at(big, j) by {
        assert(!crlf_at(buf, j));
    }
    lemma_line_end_found(big, pos, cr);
}

/// What was read from a run of frames stays as it is when more bytes follow,
/// unless more bytes were asked for.
proof fn lemma_items_final(buf: Seq<u8>, tail: Seq<u8>, pos: int, n: nat, acc: Seq<FrameView>)
    requires
        0 <= pos <= buf.len(),
        !(parse_items(buf, pos, n, acc) is Incomplete),
    ensures
        parse_items(buf + tail, pos, n, acc) == parse_items(buf, pos, n, acc),
    decreases buf.len() - pos, n + 1,
{
    if n > 0 {
        lemma_final_at(buf, tail, pos);
        match parse_at(buf, pos) {
            Parsed::Complete(f, end) => {
                lemma_items_final(buf, tail, end, (n - 1) as nat, acc.push(f));
            },
            _ => {},
        }
    }
}

/// What was read at `pos` stays as it is when more bytes follow, unless more
/// bytes were asked for.
proof fn lemma_final_at(buf: Seq<u8>, tail: Seq<u8>, pos: int)
    requires
        0 <= pos,
        !(parse_at(buf, pos) is Incomplete),
    ensures
        parse_at(buf + tail, pos) == parse_at(buf, pos),
    decreases buf.len() - pos, 0nat,
{
    let big = buf + tail;
    if is_marker(buf[pos]) {
        let cr = line_end(buf, pos + 1);
        let next = cr + 2;
        lemma_line_end_stable(buf, tail, pos + 1);
        let line = buf.subrange(pos + 1, cr);
        assert(big.subrange(pos + 1, cr) =~= line);
        if buf[pos] == BULK {
            if number(line) is Some {
                let stop = next + number(line)->Some_0;
                assert(big.subrange(next, stop) =~= buf.subrange(next, stop));
            }
        } else if buf[pos] == ARRAY {
            if number(line) is Some {
                lemma_items_final(buf, tail, next, number(line)->Some_0 as nat, Seq::empty());
            }
        }
    }
}

/// A verdict is final: once decoding has given a frame or an error, it gives
/// the same whatever bytes arrive after. Only "more bytes are needed" is ever
/// revised.
pub proof fn lemma_verdict_is_final(buf: Seq<u8>, tail: Seq<u8>)
    requires
        !(decoding(buf) is Incomplete),
    ensures
        decoding(buf + tail) == decoding(buf),
{
    lemma_final_at(buf, tail, 0);
}

/// The empty buffer is no error: it asks for more bytes.
pub proof fn lemma_empty_buffer()
    ensures
        decoding(Seq::<u8>::empty()) == Parsed::Incomplete,
{
}

/// A buffer that starts with a byte that is no marker is refused at once.
pub proof fn lemma_unknown_marker(buf: Seq<u8>)
    requires
        buf.len() > 0,
        !is_marker(buf[0]),
    ensures
        decoding(buf) == Parsed::Malformed(ProtocolError::UnknownMarker(buf[0])),
{
}

/// Decoding the bytes of a well-formed frame gives the frame and the number
/// of its bytes, whatever bytes follow.
pub proof fn lemma_decode_encode(f: FrameView, tail: Seq<u8>)
    requires
        f.wf(),
    ensures
        decoding(encoding(f) + tail) == Parsed::Complete(f, encoding(f).len() as int),
{
    let buf = encoding(f) + tail;
    assert(buf.subrange(0, encoding(f).len() as int) =~= encoding(f));
    lemma_read_back(buf, 0, f);
}

/// Decoding less than all the bytes of a well-formed frame asks for more: no
/// proper prefix of a frame's bytes is taken for a frame or for an error.
pub proof fn lemma_decode_prefix(f: FrameView, k: int)
    requires
        f.wf(),
        0 <= k < encoding(f).len(),
    ensures
        decoding(encoding(f).take(k)) == Parsed::Incomplete,
{
    let buf = encoding(f).take(k);
    assert(buf.subrange(0, buf.len() as int) =~= encoding(f).take(buf.len() - 0));
    lemma_cut_short(buf, 0, f);
}

} // verus!
