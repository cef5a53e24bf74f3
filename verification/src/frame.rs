//! Frames: the unit of exchange between client and server.

use vstd::prelude::*;
use vstd::utf8::*;

verus! {

/// Carriage return, the first byte of a line terminator.
pub const CR: u8 = 13;

/// Line feed, the second byte of a line terminator.
pub const LF: u8 = 10;

/// Whether a line terminator starts at index `i` of `bytes`.
pub open spec fn crlf_at(bytes: Seq<u8>, i: int) -> bool {
    0 <= i && i + 1 < bytes.len() && bytes[i] == CR && bytes[i + 1] == LF
}

/// Whether `bytes` can stand on a line of its own: no line terminator inside.
pub open spec fn line_safe(bytes: Seq<u8>) -> bool {
    forall|i: int| !crlf_at(bytes, i)
}

/// Whether `text` can stand on a line of its own when it is spelled in UTF-8.
pub open spec fn fits_on_line(text: Seq<char>) -> bool {
    line_safe(encode_utf8(text))
}

/// A text that fits on one line: spelled in UTF-8, it holds no line
/// terminator. Only such a text can be sent as a simple or an error frame and
/// come back as it was.
#[derive(Debug, PartialEq, Eq)]
pub struct Line {
    text: String,
}

impl View for Line {
    type V = Seq<char>;

    closed spec fn view(&self) -> Seq<char> {
        self.text@
    }
}

impl Line {
    #[verifier::type_invariant]
    spec fn inv(&self) -> bool {
        fits_on_line(self.text@)
    }

    /// `text` as a line, if it fits on one.
    pub fn new(text: String) -> (r: Option<Line>)
        ensures
            r is Some <==> fits_on_line(text@),
            r matches Some(line) ==> line@ == text@,
    {
        if is_line_safe(text.as_str().as_bytes()) {
            Some(Line { text })
        } else {
            None
        }
    }

    /// `text` as a line, where it is known to fit on one.
    pub(crate) fn from_fitting(text: String) -> (line: Line)
        requires
            fits_on_line(text@),
        ensures
            line@ == text@,
    {
        Line { text }
    }

    /// The text. That it fits on one line is what the type stands for.
    pub fn as_str(&self) -> (text: &str)
        ensures
            text@ == self@,
            fits_on_line(self@),
    {
        proof {
            use_type_invariant(self);
        }
        self.text.as_str()
    }

    /// The text, given up by the line.
    pub fn into_string(self) -> (text: String)
        ensures
            text@ == self@,
            fits_on_line(self@),
    {
        proof {
            use_type_invariant(&self);
        }
        self.text
    }
}

impl Clone for Line {
    fn clone(&self) -> (r: Line)
        ensures
            r@ == self@,
    {
        proof {
            use_type_invariant(self);
        }
        Line { text: self.text.clone() }
    }
}

/// One protocol message.
#[derive(Debug, PartialEq, Eq)]
pub enum Frame {
    /// A short status text.
    Simple(Line),
    /// An error message for the peer.
    Error(Line),
    /// An unsigned number.
    Integer(u64),
    /// An arbitrary byte string.
    Bulk(Vec<u8>),
    /// The absence of a value.
    Null,
    /// A list of frames.
    Array(Vec<Frame>),
}

/// The mathematical value of a [`Frame`].
pub enum FrameView {
    Simple(Seq<char>),
    Error(Seq<char>),
    Integer(u64),
    Bulk(Seq<u8>),
    Null,
    Array(Seq<FrameView>),
}

impl FrameView {
    /// Whether the frame can be sent: its texts fit on one line each, and its
    /// lengths fit in the 64 bits of a length field.
    pub open spec fn wf(self) -> bool
        decreases self,
    {
        match self {
            FrameView::Simple(text) => fits_on_line(text),
            FrameView::Error(text) => fits_on_line(text),
            FrameView::Integer(_) => true,
            FrameView::Bulk(bytes) => bytes.len() <= u64::MAX,
            FrameView::Null => true,
            FrameView::Array(items) => {
                &&& items.len() <= u64::MAX
                &&& forall|i: int| 0 <= i < items.len() ==> (#[trigger] items[i]).wf()
            },
        }
    }
}

/// The values of the first `n` frames of `items`.
pub open spec fn views(items: Seq<Frame>, n: nat) -> Seq<FrameView>
    decreases items, n,
{
    if n == 0 || n > items.len() {
        Seq::empty()
    } else {
        views(items, (n - 1) as nat).push(items[n - 1].view())
    }
}

impl View for Frame {
    type V = FrameView;

    open spec fn view(&self) -> FrameView
        decreases self, 0nat,
    {
        match self {
            Frame::Simple(text) => FrameView::Simple(text@),
            Frame::Error(text) => FrameView::Error(text@),
            Frame::Integer(value) => FrameView::Integer(*value),
            Frame::Bulk(bytes) => FrameView::Bulk(bytes@),
            Frame::Null => FrameView::Null,
            Frame::Array(items) => FrameView::Array(views(items@, items@.len())),
        }
    }
}

/// `views` maps each of the first `n` frames to its value, in order.
pub proof fn lemma_views(items: Seq<Frame>, n: nat)
    requires
        n <= items.len(),
    ensures
        views(items, n).len() == n,
        forall|i: int| 0 <= i < n ==> #[trigger] views(items, n)[i] == items[i]@,
    decreases n,
{
    if n > 0 {
        lemma_views(items, (n - 1) as nat);
        let shorter = views(items, (n - 1) as nat);
        assert(views(items, n) == shorter.push(items[n - 1]@));
        assert forall|i: int| 0 <= i < n implies #[trigger] views(items, n)[i] == items[i]@ by {
            if i < n - 1 {
                assert(shorter[i] == items[i]@);
            }
        }
    }
}

/// Whether `bytes` holds no line terminator.
pub fn is_line_safe(bytes: &[u8]) -> (r: bool)
    ensures
        r == line_safe(bytes@),
{
    let mut i: usize = 0;
    while i < bytes.len() && bytes.len() - i >= 2
        invariant
            i <= bytes.len(),
            forall|j: int| 0 <= j < i ==> !crlf_at(bytes@, j),
        decreases bytes.len() - i,
    {
        if bytes[i] == CR && bytes[i + 1] == LF {
            assert(crlf_at(bytes@, i as int));
            return false;
        }
        i = i + 1;
    }
    true
}

impl Clone for Frame {
    fn clone(&self) -> (r: Frame)
        ensures
            r@ == self@,
    {
        self.duplicate()
    }
}

impl Frame {
    /// A frame of the same value.
    fn duplicate(&self) -> (r: Frame)
        ensures
            r@ == self@,
        decreases self,
    {
        match self {
            Frame::Simple(text) => Frame::Simple(text.clone()),
            Frame::Error(text) => Frame::Error(text.clone()),
            Frame::Integer(n) => Frame::Integer(*n),
            Frame::Bulk(bytes) => {
                let copy = bytes.clone();
                Frame::Bulk(copy)
            },
            Frame::Null => Frame::Null,
            Frame::Array(items) => {
                let mut copies: Vec<Frame> = Vec::new();
                let mut i: usize = 0;
                while i < items.len()
                    invariant
                        i <= items.len(),
                        *self == Frame::Array(*items),
                        copies.len() == i,
                        forall|j: int| 0 <= j < i ==> #[trigger] copies[j]@ == items[j]@,
                    decreases items.len() - i,
                {
                    assert(decreases_to!(*self => self->Array_0));
                    let copy = items[i].duplicate();
                    copies.push(copy);
                    i = i + 1;
                }
                proof {
                    lemma_views(items@, items@.len());
                    lemma_views(copies@, copies@.len());
                    assert(views(copies@, copies@.len()) =~= views(items@, items@.len()));
                }
                Frame::Array(copies)
            },
        }
    }
}

} // verus!
