//! The server's side of a connection: what it answers to each request, and
//! when it stops serving.
//!
//! Reading a request and deciding what it asks for needs no store. Only
//! [`apply`] touches the store, for one `get` or one `set`: that is the step
//! to take under the store's lock.

use vstd::prelude::*;
use crate::command::{command_of, Command, CommandError, CommandView};
use crate::connection::Progress;
use crate::frame::{Frame, FrameView, Line};
use crate::store::Store;
use crate::text::lemma_plain_text_line_safe;

verus! {

/// What a store holds: a map from keys to values.
pub type Contents = Map<Seq<char>, Seq<u8>>;

/// The text of the answer to a `SET`: `OK`.
pub open spec fn ok_text() -> Seq<char> {
    "OK"@
}

/// The answer to `command` from a store that holds `store`: the value or the
/// null frame for a `GET`, and `OK` for a `SET`.
pub open spec fn answer(store: Contents, command: CommandView) -> FrameView {
    match command {
        CommandView::Get { key } => if store.contains_key(key) {
            FrameView::Bulk(store[key])
        } else {
            FrameView::Null
        },
        CommandView::Put { .. } => FrameView::Simple(ok_text()),
    }
}

/// What `command` does to a store that holds `store`.
pub open spec fn store_with(store: Contents, command: CommandView) -> Contents {
    match command {
        CommandView::Get { .. } => store,
        CommandView::Put { key, value } => store.insert(key, value),
    }
}

/// The answer to a frame that is no request: an error frame with the reason.
pub open spec fn refusal(error: CommandError) -> FrameView {
    FrameView::Error(error.message_text())
}

/// The answer to `request` from a server whose store holds `store`.
pub open spec fn reply_to(store: Contents, request: FrameView) -> FrameView {
    match command_of(request) {
        Ok(command) => answer(store, command),
        Err(e) => refusal(e),
    }
}

/// The store after `request` was served from a store that held `store`.
pub open spec fn store_after(store: Contents, request: FrameView) -> Contents {
    match command_of(request) {
        Ok(command) => store_with(store, command),
        Err(_) => store,
    }
}

/// Applies one command to the store and gives the answer to send.
///
/// A `GET` is answered with the value as a bulk frame, or with the null frame
/// where the key holds nothing. A `SET` stores the value and is answered with
/// `OK`.
pub fn apply(store: &mut Store, command: Command) -> (response: Frame)
    ensures
        response@ == answer(old(store)@, command@),
        final(store)@ == store_with(old(store)@, command@),
{
    match command {
        Command::Get { key } => match store.get(key.as_str()) {
            Some(value) => Frame::Bulk(value),
            None => Frame::Null,
        },
        Command::Put { key, value } => {
            store.set(key, value);
            proof {
                reveal_strlit("OK");
                lemma_plain_text_line_safe(ok_text());
            }
            Frame::Simple(Line::from_fitting("OK".to_owned()))
        },
    }
}

/// The answer to a frame that is no request. The connection goes on.
pub fn refuse(error: CommandError) -> (response: Frame)
    ensures
        response@ == refusal(error),
{
    Frame::Error(error.line())
}

/// Serves one request from the store: reads what it asks for, applies it, and
/// gives the answer to send. A frame that is no request leaves the store
/// alone and is answered with an error frame.
pub fn respond(store: &mut Store, request: Frame) -> (response: Frame)
    ensures
        response@ == reply_to(old(store)@, request@),
        final(store)@ == store_after(old(store)@, request@),
{
    match Command::from_frame(request) {
        Ok(command) => apply(store, command),
        Err(e) => refuse(e),
    }
}

/// Whether every value of `store` fits the length field of a frame. This
/// holds of every store in a running program.
pub open spec fn sendable(store: Contents) -> bool {
    forall|key: Seq<char>| store.contains_key(key) ==> (#[trigger] store[key]).len() <= u64::MAX
}

/// Every answer can be sent, whatever was asked.
pub proof fn lemma_reply_well_formed(store: Contents, request: FrameView)
    requires
        sendable(store),
    ensures
        reply_to(store, request).wf(),
{
    match command_of(request) {
        Ok(CommandView::Get { key }) => {},
        Ok(CommandView::Put { key, value }) => {
            reveal_strlit("OK");
            lemma_plain_text_line_safe(ok_text());
        },
        Err(e) => {
            e.lemma_message_line_safe();
        },
    }
}

/// Where a connection stands.
#[derive(Debug, Clone, Copy, PartialEq, Eq, Structural)]
pub enum Phase {
    /// Accepted, no request read yet.
    Accepted,
    /// At least one request was read and the peer may send more.
    Serving,
    /// Done: the peer closed the stream, or reading or writing failed.
    Closed,
}

/// What happened on the connection since the last step.
pub enum Event {
    /// A frame was read.
    Request(Frame),
    /// The peer closed the stream between two frames.
    End,
    /// Reading a frame or writing the last answer failed.
    Failure,
}

impl Event {
    /// The event that the state of reading amounts to; none while more bytes
    /// are needed. Whatever breaks the connection is a failure to the handler.
    pub fn of(progress: Progress) -> (r: Option<Event>)
        ensures
            match progress {
                Progress::Frame(frame) => r matches Some(Event::Request(request)) && request@
                    == frame@,
                Progress::NeedMore => r is None,
                Progress::End => r matches Some(Event::End),
                Progress::Failed(_) => r matches Some(Event::Failure),
            },
    {
        match progress {
            Progress::Frame(frame) => Some(Event::Request(frame)),
            Progress::NeedMore => None,
            Progress::End => Some(Event::End),
            Progress::Failed(_) => Some(Event::Failure),
        }
    }
}

/// What the handler has to do next.
#[derive(Debug, PartialEq, Eq)]
pub enum Action {
    /// Take the store's lock, [`apply`] this command, release the lock, write
    /// the answer, then read the next frame.
    Apply(Command),
    /// Write this frame, then read the next one.
    Reply(Frame),
    /// Stop: close the socket and end the handler.
    Close,
}

/// What `action` stands for.
pub enum ActionView {
    Apply(CommandView),
    Reply(FrameView),
    Close,
}

impl View for Action {
    type V = ActionView;

    open spec fn view(&self) -> ActionView {
        match self {
            Action::Apply(command) => ActionView::Apply(command@),
            Action::Reply(frame) => ActionView::Reply(frame@),
            Action::Close => ActionView::Close,
        }
    }
}

/// What a handler in phase `phase` has to do when `event` happens.
pub open spec fn action_for(phase: Phase, event: Event) -> ActionView {
    match event {
        Event::Request(frame) => if phase == Phase::Closed {
            ActionView::Close
        } else {
            match command_of(frame@) {
                Ok(command) => ActionView::Apply(command),
                Err(e) => ActionView::Reply(refusal(e)),
            }
        },
        _ => ActionView::Close,
    }
}

/// The phase that a handler in phase `phase` enters when `event` happens.
pub open spec fn phase_after(phase: Phase, event: Event) -> Phase {
    if phase != Phase::Closed && event is Request {
        Phase::Serving
    } else {
        Phase::Closed
    }
}

/// A connection moves from accepted to serving to closed and never back:
/// nothing leads to `Accepted`, and nothing leads out of `Closed`. A frame
/// that is no request does not close it.
pub proof fn lemma_phases_in_order(phase: Phase, event: Event)
    ensures
        phase_after(phase, event) != Phase::Accepted,
        phase_after(Phase::Closed, event) == Phase::Closed,
        action_for(Phase::Closed, event) == ActionView::Close,
        phase != Phase::Closed && event is Request ==> phase_after(phase, event) == Phase::Serving
            && action_for(phase, event) != ActionView::Close,
{
}

/// The handler of one connection.
pub struct Session {
    phase: Phase,
}

impl Session {
    /// The handler of a connection that was just accepted.
    pub fn new() -> (session: Session)
        ensures
            session.phase() == Phase::Accepted,
    {
        Session { phase: Phase::Accepted }
    }

    /// Where the connection stands.
    pub closed spec fn phase(&self) -> Phase {
        self.phase
    }

    /// Where the connection stands.
    pub fn current_phase(&self) -> (phase: Phase)
        ensures
            phase == self.phase(),
    {
        self.phase
    }

    /// Whether the handler has stopped.
    pub fn is_closed(&self) -> (closed: bool)
        ensures
            closed == (self.phase() == Phase::Closed),
    {
        match self.phase {
            Phase::Closed => true,
            _ => false,
        }
    }

    /// Takes one step: decides what the event calls for.
    ///
    /// While the connection is open, a frame that is a request is to be
    /// applied to the store, and a frame that is none is to be refused with
    /// an error frame; either way the connection is then `Serving`. The end
    /// of the stream and a failure close the connection. A closed connection
    /// stays closed.
    pub fn step(&mut self, event: Event) -> (action: Action)
        ensures
            action@ == action_for(old(self).phase(), event),
            final(self).phase() == phase_after(old(self).phase(), event),
    {
        if self.is_closed() {
            return Action::Close;
        }
        match event {
            Event::Request(request) => {
                self.phase = Phase::Serving;
                match Command::from_frame(request) {
                    Ok(command) => Action::Apply(command),
                    Err(e) => Action::Reply(refuse(e)),
                }
            },
            Event::End => {
                self.phase = Phase::Closed;
                Action::Close
            },
            Event::Failure => {
                self.phase = Phase::Closed;
                Action::Close
            },
        }
    }
}

} // verus!
