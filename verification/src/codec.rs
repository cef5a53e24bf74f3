//! Encoding frames to bytes and decoding bytes to frames.

use vstd::prelude::*;
use vstd::utf8::*;
use vstd::slice::{slice_subrange, slice_to_vec};
use crate::decimal::{digits, parse_decimal, push_decimal};
use crate::frame::{lemma_views, views, Frame, Line, CR, LF};
use crate::framing::{lemma_decode_encode, lemma_found_line_safe, lemma_spelled};
use crate::text::text_from_utf8;
use crate::wire::{
    crlf, decoding, encoding, encoding_from, line_end, null_line, parse_at, parse_items, Parsed,
    ProtocolError, ARRAY, BULK, ERROR, INTEGER, SIMPLE,
};

verus! {

/// Appends `bytes` to `out`.
fn push_all(out: &mut Vec<u8>, bytes: &[u8])
    ensures
        final(out)@ == old(out)@ + bytes@,
{
    out.extend_from_slice(bytes);
}

/// Appends a line terminator to `out`.
fn push_crlf(out: &mut Vec<u8>)
    ensures
        final(out)@ == old(out)@ + crlf(),
{
    out.push(CR);
    out.push(LF);
}

/// Appends the bytes that spell `frame` to `out`.
///
/// Every frame that exists in a running program is well-formed: its texts are
/// lines, and its lengths are those of vectors. The walk over the frame finds
/// this on its way.
pub fn encode_into(frame: &Frame, out: &mut Vec<u8>)
    ensures
        final(out)@ == old(out)@ + encoding(frame@),
        frame@.wf(),
    decreases frame,
{
    match frame {
        Frame::Simple(text) => {
            out.push(SIMPLE);
            push_all(out, text.as_str().as_bytes());
            push_crlf(out);
        },
        Frame::Error(text) => {
            out.push(ERROR);
            push_all(out, text.as_str().as_bytes());
            push_crlf(out);
        },
        Frame::Integer(n) => {
            out.push(INTEGER);
            push_decimal(out, *n);
            push_crlf(out);
        },
        Frame::Bulk(bytes) => {
            out.push(BULK);
            push_decimal(out, bytes.len() as u64);
            push_crlf(out);
            push_all(out, bytes.as_slice());
            push_crlf(out);
        },
        Frame::Null => {
            out.push(BULK);
            out.push(45);
            out.push(49);
            push_crlf(out);
        },
        Frame::Array(items) => {
            out.push(ARRAY);
            push_decimal(out, items.len() as u64);
            push_crlf(out);
            let ghost values = frame@->Array_0;
            let ghost head = old(out)@ + seq![ARRAY] + digits(items.len() as nat) + crlf();
            proof {
                lemma_views(items@, items@.len());
            }
            let mut i: usize = 0;
            while i < items.len()
                invariant
                    i <= items.len(),
                    *frame == Frame::Array(*items),
                    values == frame@->Array_0,
                    values.len() == items.len(),
                    forall|j: int| 0 <= j < items.len() ==> #[trigger] values[j] == items[j]@,
                    forall|j: int| 0 <= j < i ==> (#[trigger] values[j]).wf(),
                    out@ + encoding_from(values, i as nat) == head + encoding_from(values, 0),
                decreases items.len() - i,
            {
                let ghost before = out@;
                encode_into(&items[i], out);
                proof {
                    assert(encoding_from(values, i as nat) == encoding(values[i as int])
                        + encoding_from(values, (i + 1) as nat));
                    assert(out@ + encoding_from(values, (i + 1) as nat) =~= before + encoding_from(
                        values,
                        i as nat,
                    ));
                }
                i = i + 1;
            }
        },
    }
}

/// The bytes that spell `frame`. Decoding them gives `frame` back.
pub fn encode(frame: &Frame) -> (bytes: Vec<u8>)
    ensures
        bytes@ == encoding(frame@),
        frame@.wf(),
        decoding(bytes@) == Parsed::Complete(frame@, bytes@.len() as int),
{
    let mut out: Vec<u8> = Vec::new();
    encode_into(frame, &mut out);
    proof {
        lemma_decode_encode(frame@, Seq::empty());
    }
    out
}

/// What a result of [`decode`] stands for.
pub open spec fn outcome(r: Result<Option<(Frame, usize)>, ProtocolError>) -> Parsed {
    match r {
        Ok(Some((frame, end))) => Parsed::Complete(frame@, end as int),
        Ok(None) => Parsed::Incomplete,
        Err(e) => Parsed::Malformed(e),
    }
}

/// Appending a frame to a list appends its value to the list's values.
proof fn lemma_views_push(items: Seq<Frame>, frame: Frame)
    ensures
        views(items.push(frame), items.len() + 1) == views(items, items.len()).push(frame@),
{
    let longer = items.push(frame);
    lemma_views(items, items.len());
    lemma_views(longer, longer.len());
    assert forall|i: int| 0 <= i < longer.len() implies views(longer, longer.len())[i] == views(
        items,
        items.len(),
    ).push(frame@)[i] by {
        if i < items.len() {
            assert(longer[i] == items[i]);
        }
    }
}

/// Finds the first line terminator of `buf` at or after `from`.
fn find_line_end(buf: &[u8], from: usize) -> (r: Option<usize>)
    requires
        from <= buf.len(),
    ensures
        match r {
            Some(cr) => line_end(buf@, from as int) == cr && from <= cr && cr + 2 <= buf.len(),
            None => line_end(buf@, from as int) == -1,
        },
{
    let mut i: usize = from;
    while i < buf.len() && buf.len() - i >= 2
        invariant
            from <= i <= buf.len(),
            line_end(buf@, from as int) == line_end(buf@, i as int),
        decreases buf.len() - i,
    {
        if buf[i] == CR && buf[i + 1] == LF {
            return Some(i);
        }
        i = i + 1;
    }
    None
}

/// Reads the frame that starts at index `pos` of `buf`.
fn decode_at(buf: &[u8], pos: usize) -> (r: Result<Option<(Frame, usize)>, ProtocolError>)
    requires
        pos <= buf.len(),
    ensures
        outcome(r) == parse_at(buf@, pos as int),
        r matches Ok(Some((_, end))) ==> pos < end <= buf.len(),
    decreases buf.len() - pos,
{
    if pos >= buf.len() {
        return Ok(None);
    }
    let marker = buf[pos];
    if marker != SIMPLE && marker != ERROR && marker != INTEGER && marker != BULK && marker
        != ARRAY {
        return Err(ProtocolError::UnknownMarker(marker));
    }
    let cr = match find_line_end(buf, pos + 1) {
        Some(cr) => cr,
        None => {
            return Ok(None);
        },
    };
    let next = cr + 2;
    let ghost field = buf@.subrange(pos + 1, cr as int);
    if marker == SIMPLE || marker == ERROR {
        let bytes = slice_to_vec(slice_subrange(buf, pos + 1, cr));
        match text_from_utf8(bytes) {
            Some(text) => {
                proof {
                    encode_utf8_decode_utf8(text@);
                    lemma_found_line_safe(buf@, pos + 1);
                }
                let line = Line::from_fitting(text);
                if marker == SIMPLE {
                    Ok(Some((Frame::Simple(line), next)))
                } else {
                    Ok(Some((Frame::Error(line), next)))
                }
            },
            None => Err(ProtocolError::InvalidText),
        }
    } else if marker == INTEGER {
        match parse_decimal(slice_subrange(buf, pos + 1, cr)) {
            Some(n) => Ok(Some((Frame::Integer(n), next))),
            None => Err(ProtocolError::InvalidNumber),
        }
    } else if marker == BULK {
        match parse_decimal(slice_subrange(buf, pos + 1, cr)) {
            Some(n) => {
                if n > (buf.len() - next) as u64 {
                    return Ok(None);
                }
                let stop = next + n as usize;
                if buf.len() - stop < 2 {
                    return Ok(None);
                }
                if buf[stop] == CR && buf[stop + 1] == LF {
                    let payload = slice_to_vec(slice_subrange(buf, next, stop));
                    Ok(Some((Frame::Bulk(payload), stop + 2)))
                } else {
                    Err(ProtocolError::MissingTerminator)
                }
            },
            None => {
                if cr - pos == 3 && buf[pos + 1] == 45 && buf[pos + 2] == 49 {
                    assert(field =~= null_line());
                    Ok(Some((Frame::Null, next)))
                } else {
                    proof {
                        if field == null_line() {
                            assert(field[0] == 45 && field[1] == 49);
                        }
                    }
                    Err(ProtocolError::InvalidNumber)
                }
            },
        }
    } else {
        let n = match parse_decimal(slice_subrange(buf, pos + 1, cr)) {
            Some(n) => n,
            None => {
                return Err(ProtocolError::InvalidNumber);
            },
        };
        let mut items: Vec<Frame> = Vec::new();
        let mut cur: usize = next;
        let mut i: u64 = 0;
        while i < n
            invariant
                pos < cur <= buf.len(),
                i <= n,
                parse_at(buf@, pos as int) == parse_items(
                    buf@,
                    next as int,
                    n as nat,
                    Seq::empty(),
                ).as_array(),
                parse_items(buf@, next as int, n as nat, Seq::empty()) == parse_items(
                    buf@,
                    cur as int,
                    (n - i) as nat,
                    views(items@, items@.len()),
                ),
            decreases n - i,
        {
            match decode_at(buf, cur) {
                Ok(Some((frame, end))) => {
                    proof {
                        lemma_views_push(items@, frame);
                    }
                    items.push(frame);
                    cur = end;
                },
                Ok(None) => {
                    return Ok(None);
                },
                Err(e) => {
                    return Err(e);
                },
            }
            i = i + 1;
        }
        Ok(Some((Frame::Array(items), cur)))
    }
}

/// Reads the frame at the front of `buf`, if a whole frame is there.
///
/// `Ok(Some((frame, used)))` gives a frame whose spelling is the first `used`
/// bytes. `Ok(None)` says that no whole frame is there yet and more bytes are
/// needed; the empty buffer is such a case. `Err` says that no frame starts
/// like this, however the buffer goes on.
pub fn decode(buf: &[u8]) -> (r: Result<Option<(Frame, usize)>, ProtocolError>)
    ensures
        outcome(r) == decoding(buf@),
        r matches Ok(Some((frame, used))) ==> {
            &&& 0 < used <= buf.len()
            &&& frame@.wf()
            &&& buf@.take(used as int) == encoding(frame@)
        },
{
    let r = decode_at(buf, 0);
    proof {
        if r is Ok && r->Ok_0 is Some {
            lemma_spelled(buf@, 0);
        }
    }
    r
}

} // verus!
