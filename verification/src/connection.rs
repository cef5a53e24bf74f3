//! The receiving side of a connection: the bytes that have arrived and have
//! not yet been read as frames.
//!
//! The socket itself lives with the caller. The caller hands over what it
//! read, asks for the next frame, and says when the peer has closed.

use vstd::prelude::*;
use crate::codec::decode;
use crate::frame::{Frame, FrameView};
use crate::framing::{lemma_decode_encode, lemma_decode_prefix};
use crate::wire::{decoding, encoding, Parsed, ProtocolError};

verus! {

/// Why a connection cannot go on.
#[derive(Debug, Clone, Copy, PartialEq, Eq, Structural)]
pub enum ConnectionError {
    /// The peer sent bytes that start no frame.
    Protocol(ProtocolError),
    /// The peer closed the stream in the middle of a frame.
    ResetByPeer,
    /// Reading from or writing to the stream failed.
    Io,
}

/// How far reading the next frame has come.
#[derive(Debug, PartialEq, Eq)]
pub enum Progress {
    /// A whole frame has arrived.
    Frame(Frame),
    /// More bytes are needed: read from the stream and come back.
    NeedMore,
    /// The peer closed the stream between two frames.
    End,
    /// The connection cannot go on.
    Failed(ConnectionError),
}

/// The mathematical value of a [`Progress`].
pub enum ProgressView {
    Frame(FrameView),
    NeedMore,
    End,
    Failed(ConnectionError),
}

impl View for Progress {
    type V = ProgressView;

    open spec fn view(&self) -> ProgressView {
        match self {
            Progress::Frame(frame) => ProgressView::Frame(frame@),
            Progress::NeedMore => ProgressView::NeedMore,
            Progress::End => ProgressView::End,
            Progress::Failed(e) => ProgressView::Failed(*e),
        }
    }
}

/// How far reading the next frame has come with `buffer` received.
pub open spec fn progress_of(buffer: Seq<u8>) -> ProgressView {
    match decoding(buffer) {
        Parsed::Complete(f, _) => ProgressView::Frame(f),
        Parsed::Incomplete => ProgressView::NeedMore,
        Parsed::Malformed(e) => ProgressView::Failed(ConnectionError::Protocol(e)),
    }
}

/// What is left of `buffer` when the frame at its front, if a whole frame is
/// there, is taken out.
pub open spec fn rest_of(buffer: Seq<u8>) -> Seq<u8> {
    match decoding(buffer) {
        Parsed::Complete(_, used) => buffer.skip(used),
        _ => buffer,
    }
}

/// The bytes received on one connection and not yet consumed.
pub struct Connection {
    buffer: Vec<u8>,
}

impl View for Connection {
    type V = Seq<u8>;

    closed spec fn view(&self) -> Seq<u8> {
        self.buffer@
    }
}

impl Connection {
    /// A connection on which nothing has arrived yet.
    pub fn new() -> (conn: Connection)
        ensures
            conn@ == Seq::<u8>::empty(),
    {
        Connection { buffer: Vec::new() }
    }

    /// Takes in bytes that were read from the stream.
    pub fn receive(&mut self, bytes: &[u8])
        ensures
            final(self)@ == old(self)@ + bytes@,
    {
        self.buffer.extend_from_slice(bytes);
    }

    /// The number of bytes that wait to be read as frames.
    pub fn pending(&self) -> (n: usize)
        ensures
            n == self@.len(),
    {
        self.buffer.len()
    }

    /// Reads the next frame from what has arrived.
    ///
    /// A whole frame is handed out and its bytes are consumed; what follows
    /// them stays for the next call. `Ok(None)` asks for more bytes and
    /// consumes nothing. After an error the connection is of no further use.
    pub fn next_frame(&mut self) -> (r: Result<Option<Frame>, ProtocolError>)
        ensures
            match decoding(old(self)@) {
                Parsed::Complete(f, used) => {
                    &&& r matches Ok(Some(frame))
                    &&& frame@ == f
                    &&& 0 < used <= old(self)@.len()
                    &&& final(self)@ == old(self)@.skip(used)
                },
                Parsed::Incomplete => r == Ok::<Option<Frame>, ProtocolError>(None) && final(self)@
                    == old(self)@,
                Parsed::Malformed(e) => r == Err::<Option<Frame>, ProtocolError>(e) && final(self)@
                    == old(self)@,
            },
    {
        match decode(self.buffer.as_slice()) {
            Ok(Some((frame, used))) => {
                let rest = self.buffer.split_off(used);
                self.buffer = rest;
                Ok(Some(frame))
            },
            Ok(None) => Ok(None),
            Err(e) => Err(e),
        }
    }

    /// Looks for the next frame in what has arrived, before anything is read
    /// from the stream.
    pub fn poll(&mut self) -> (r: Progress)
        ensures
            r@ == progress_of(old(self)@),
            final(self)@ == rest_of(old(self)@),
    {
        match self.next_frame() {
            Ok(Some(frame)) => Progress::Frame(frame),
            Ok(None) => Progress::NeedMore,
            Err(e) => Progress::Failed(ConnectionError::Protocol(e)),
        }
    }

    /// Takes in what one read from the stream gave, and looks for the next
    /// frame. An empty `chunk` says that the stream is at its end: that is a
    /// clean end where no bytes wait, and a reset by the peer where the start
    /// of a frame is left behind.
    pub fn after_read(&mut self, chunk: &[u8]) -> (r: Progress)
        ensures
            chunk@.len() > 0 ==> r@ == progress_of(old(self)@ + chunk@) && final(self)@ == rest_of(
                old(self)@ + chunk@,
            ),
            chunk@.len() == 0 && old(self)@.len() == 0 ==> r@ == ProgressView::End && final(self)@
                == old(self)@,
            chunk@.len() == 0 && old(self)@.len() > 0 ==> r@ == ProgressView::Failed(
                ConnectionError::ResetByPeer,
            ) && final(self)@ == old(self)@,
    {
        if chunk.len() == 0 {
            match self.end_of_stream() {
                Ok(()) => Progress::End,
                Err(e) => Progress::Failed(e),
            }
        } else {
            self.receive(chunk);
            self.poll()
        }
    }

    /// Takes note that the peer has closed the stream. This is a clean end
    /// where no bytes wait, and a reset where the start of a frame is left.
    pub fn end_of_stream(&self) -> (r: Result<(), ConnectionError>)
        ensures
            self@.len() == 0 ==> r == Ok::<(), ConnectionError>(()),
            self@.len() > 0 ==> r == Err::<(), ConnectionError>(ConnectionError::ResetByPeer),
    {
        if self.buffer.len() == 0 {
            Ok(())
        } else {
            Err(ConnectionError::ResetByPeer)
        }
    }
}

/// A frame that arrives byte by byte is handed out with its last byte, and not
/// before: after the first `k` bytes of a well-formed frame have arrived on an
/// idle connection, more bytes are needed and all `k` are kept as long as one
/// is missing, and with all of them the frame is there and nothing is left.
pub proof fn lemma_byte_by_byte(f: FrameView, k: int)
    requires
        f.wf(),
        0 <= k <= encoding(f).len(),
    ensures
        k < encoding(f).len() ==> progress_of(encoding(f).take(k)) == ProgressView::NeedMore
            && rest_of(encoding(f).take(k)) == encoding(f).take(k),
        k == encoding(f).len() ==> progress_of(encoding(f).take(k)) == ProgressView::Frame(f)
            && rest_of(encoding(f).take(k)) == Seq::<u8>::empty(),
{
    if k < encoding(f).len() {
        lemma_decode_prefix(f, k);
    } else {
        assert(encoding(f).take(k) =~= encoding(f) + Seq::<u8>::empty());
        lemma_decode_encode(f, Seq::empty());
    }
}

} // verus!
