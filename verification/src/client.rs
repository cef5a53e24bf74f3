//! The client's side of a connection: one actor that owns the connection,
//! sends one request at a time and reads its answer before it sends the next.
//!
//! The actor decides; its caller moves the bytes. The caller takes a command
//! from the queue, asks [`Actor::dispatch`] for the bytes to write, writes
//! them, reads a frame, and hands what arrived to [`Actor::complete`], which
//! gives the result for the one who asked. Once the connection has failed, the
//! actor refuses every further command with the error that broke it, so that
//! nobody waits for an answer that cannot come.

use vstd::prelude::*;
use vstd::slice::slice_to_vec;
use vstd::utf8::*;
use crate::codec::encode;
use crate::command::{command_of, request_for, Command, CommandError, CommandView};
use crate::connection::{ConnectionError, Progress};
use crate::frame::{Frame, FrameView};
use crate::server::ok_text;
use crate::wire::{decoding, encoding, Parsed};

verus! {

/// What a command came to.
#[derive(Debug, PartialEq, Eq)]
pub enum Reply {
    /// The answer to a `GET`: the value, or `None` where the key holds nothing.
    Value(Option<Vec<u8>>),
    /// The answer to a `SET`: the value is stored.
    Stored,
}

/// The mathematical value of a [`Reply`].
pub enum ReplyView {
    Value(Option<Seq<u8>>),
    Stored,
}

impl View for Reply {
    type V = ReplyView;

    open spec fn view(&self) -> ReplyView {
        match self {
            Reply::Value(Some(bytes)) => ReplyView::Value(Some(bytes@)),
            Reply::Value(None) => ReplyView::Value(None),
            Reply::Stored => ReplyView::Stored,
        }
    }
}

/// Why a command came to nothing.
#[derive(Debug, PartialEq, Eq)]
pub enum ClientError {
    /// The connection failed, before or while the command was under way.
    Connection(ConnectionError),
    /// The server refused the request, with this message.
    Refused(String),
    /// The server answered with a frame that is no answer to the command.
    UnexpectedResponse,
    /// Another command is under way: the actor takes one at a time.
    Busy,
    /// Something arrived while no command was under way.
    NotAwaiting,
}

/// The mathematical value of a [`ClientError`].
pub enum ClientErrorView {
    Connection(ConnectionError),
    Refused(Seq<char>),
    UnexpectedResponse,
    Busy,
    NotAwaiting,
}

impl View for ClientError {
    type V = ClientErrorView;

    open spec fn view(&self) -> ClientErrorView {
        match self {
            ClientError::Connection(e) => ClientErrorView::Connection(*e),
            ClientError::Refused(message) => ClientErrorView::Refused(message@),
            ClientError::UnexpectedResponse => ClientErrorView::UnexpectedResponse,
            ClientError::Busy => ClientErrorView::Busy,
            ClientError::NotAwaiting => ClientErrorView::NotAwaiting,
        }
    }
}

/// What `result` stands for.
pub open spec fn result_view(result: Result<Reply, ClientError>) -> Result<
    ReplyView,
    ClientErrorView,
> {
    match result {
        Ok(reply) => Ok(reply@),
        Err(e) => Err(e@),
    }
}

/// What `result` stands for.
pub open spec fn dispatch_view(result: Result<Vec<u8>, ClientError>) -> Result<
    Seq<u8>,
    ClientErrorView,
> {
    match result {
        Ok(bytes) => Ok(bytes@),
        Err(e) => Err(e@),
    }
}

/// What the answer `response` means for the one who sent `command`.
///
/// An error frame is a refusal, whatever the command. A `GET` takes a bulk or
/// simple frame as the value and the null frame as "no value". A `SET` takes
/// the simple frame `OK`. Every other pairing is unexpected.
pub open spec fn outcome_of(command: CommandView, response: FrameView) -> Result<
    ReplyView,
    ClientErrorView,
> {
    match response {
        FrameView::Error(message) => Err(ClientErrorView::Refused(message)),
        FrameView::Simple(text) => match command {
            CommandView::Get { .. } => Ok(ReplyView::Value(Some(encode_utf8(text)))),
            CommandView::Put { .. } => if text == ok_text() {
                Ok(ReplyView::Stored)
            } else {
                Err(ClientErrorView::UnexpectedResponse)
            },
        },
        FrameView::Bulk(bytes) => match command {
            CommandView::Get { .. } => Ok(ReplyView::Value(Some(bytes))),
            CommandView::Put { .. } => Err(ClientErrorView::UnexpectedResponse),
        },
        FrameView::Null => match command {
            CommandView::Get { .. } => Ok(ReplyView::Value(None)),
            CommandView::Put { .. } => Err(ClientErrorView::UnexpectedResponse),
        },
        _ => Err(ClientErrorView::UnexpectedResponse),
    }
}

/// Reads the answer `response` for the one who sent `command`.
pub fn interpret(command: &Command, response: Frame) -> (r: Result<Reply, ClientError>)
    ensures
        result_view(r) == outcome_of(command@, response@),
{
    match response {
        Frame::Error(message) => Err(ClientError::Refused(message.into_string())),
        Frame::Simple(text) => match command {
            Command::Get { .. } => Ok(
                Reply::Value(Some(slice_to_vec(text.as_str().as_bytes()))),
            ),
            Command::Put { .. } => {
                let ok = "OK".to_owned();
                if text.into_string().eq(&ok) {
                    Ok(Reply::Stored)
                } else {
                    Err(ClientError::UnexpectedResponse)
                }
            },
        },
        Frame::Bulk(bytes) => match command {
            Command::Get { .. } => Ok(Reply::Value(Some(bytes))),
            Command::Put { .. } => Err(ClientError::UnexpectedResponse),
        },
        Frame::Null => match command {
            Command::Get { .. } => Ok(Reply::Value(None)),
            Command::Put { .. } => Err(ClientError::UnexpectedResponse),
        },
        _ => Err(ClientError::UnexpectedResponse),
    }
}

/// Where the actor stands.
pub enum ActorState {
    /// Free to take a command.
    Ready,
    /// A request was sent for this command, and its answer is awaited.
    Awaiting(CommandView),
    /// The connection failed with this error; nothing more can be sent.
    Failed(ConnectionError),
}

/// What came back from the connection after a request was written.
pub enum Arrival {
    /// A frame was read.
    Response(Frame),
    /// The server closed the stream instead of answering.
    Closed,
    /// Writing the request or reading the answer failed.
    Failure(ConnectionError),
}

/// The mathematical value of an [`Arrival`].
pub enum ArrivalView {
    Response(FrameView),
    Closed,
    Failure(ConnectionError),
}

impl View for Arrival {
    type V = ArrivalView;

    open spec fn view(&self) -> ArrivalView {
        match self {
            Arrival::Response(frame) => ArrivalView::Response(frame@),
            Arrival::Closed => ArrivalView::Closed,
            Arrival::Failure(cause) => ArrivalView::Failure(*cause),
        }
    }
}

impl ArrivalView {
    /// The error that an arrival without an answer stands for: a reset by the
    /// peer where the stream was closed, else the failure itself.
    pub open spec fn cause(self) -> ConnectionError {
        match self {
            ArrivalView::Failure(cause) => cause,
            _ => ConnectionError::ResetByPeer,
        }
    }
}

/// What an actor in state `state` says to a command from the queue: the bytes
/// to write, or why it takes no command.
pub open spec fn dispatch_outcome(state: ActorState, command: CommandView) -> Result<
    Seq<u8>,
    ClientErrorView,
> {
    match state {
        ActorState::Ready => Ok(encoding(request_for(command))),
        ActorState::Awaiting(_) => Err(ClientErrorView::Busy),
        ActorState::Failed(cause) => Err(ClientErrorView::Connection(cause)),
    }
}

/// The state of an actor after a command from the queue found it in `state`.
pub open spec fn after_dispatch(state: ActorState, command: CommandView) -> ActorState {
    match state {
        ActorState::Ready => ActorState::Awaiting(command),
        _ => state,
    }
}

/// What an actor in state `state` makes of what came back from the
/// connection: the result for the one who sent the command under way.
pub open spec fn arrival_outcome(state: ActorState, arrival: ArrivalView) -> Result<
    ReplyView,
    ClientErrorView,
> {
    match state {
        ActorState::Awaiting(command) => match arrival {
            ArrivalView::Response(frame) => outcome_of(command, frame),
            _ => Err(ClientErrorView::Connection(arrival.cause())),
        },
        _ => Err(ClientErrorView::NotAwaiting),
    }
}

/// The state of an actor after something came back and found it in `state`.
pub open spec fn after_arrival(state: ActorState, arrival: ArrivalView) -> ActorState {
    match state {
        ActorState::Awaiting(_) => match arrival {
            ArrivalView::Response(_) => ActorState::Ready,
            _ => ActorState::Failed(arrival.cause()),
        },
        _ => state,
    }
}

impl Arrival {
    /// What the state of reading amounts to for the one who awaits an answer;
    /// nothing while more bytes are needed.
    pub fn of(progress: Progress) -> (r: Option<Arrival>)
        ensures
            match progress {
                Progress::Frame(frame) => r matches Some(Arrival::Response(response)) && response@
                    == frame@,
                Progress::NeedMore => r is None,
                Progress::End => r matches Some(Arrival::Closed),
                Progress::Failed(e) => r matches Some(Arrival::Failure(cause)) && cause == e,
            },
    {
        match progress {
            Progress::Frame(frame) => Some(Arrival::Response(frame)),
            Progress::NeedMore => None,
            Progress::End => Some(Arrival::Closed),
            Progress::Failed(e) => Some(Arrival::Failure(e)),
        }
    }
}

/// The actor that owns the client's connection.
pub struct Actor {
    in_flight: Option<Command>,
    failure: Option<ConnectionError>,
}

impl Actor {
    /// An actor on a fresh connection.
    pub fn new() -> (actor: Actor)
        ensures
            actor.state() == ActorState::Ready,
    {
        Actor { in_flight: None, failure: None }
    }

    /// Where the actor stands.
    pub closed spec fn state(&self) -> ActorState {
        match self.failure {
            Some(e) => ActorState::Failed(e),
            None => match self.in_flight {
                Some(command) => ActorState::Awaiting(command@),
                None => ActorState::Ready,
            },
        }
    }

    /// The error that broke the connection, if it is broken.
    pub fn failure(&self) -> (r: Option<ConnectionError>)
        ensures
            match self.state() {
                ActorState::Failed(e) => r == Some(e),
                _ => r is None,
            },
    {
        self.failure
    }

    /// Takes a command from the queue and gives the bytes to write for it.
    ///
    /// A ready actor gives the request's bytes, which the server will read as
    /// this very command, and then awaits the answer. An actor that awaits an
    /// answer takes no second command. An actor whose connection failed
    /// refuses with the error that broke it.
    pub fn dispatch(&mut self, command: Command) -> (r: Result<Vec<u8>, ClientError>)
        ensures
            dispatch_view(r) == dispatch_outcome(old(self).state(), command@),
            final(self).state() == after_dispatch(old(self).state(), command@),
            r matches Ok(bytes) ==> {
                &&& decoding(bytes@) == Parsed::Complete(request_for(command@), bytes@.len() as int)
                &&& command_of(request_for(command@)) == Ok::<CommandView, CommandError>(command@)
            },
    {
        match self.failure {
            Some(cause) => {
                return Err(ClientError::Connection(cause));
            },
            None => {},
        }
        if self.in_flight.is_some() {
            return Err(ClientError::Busy);
        }
        let bytes = encode(&command.to_frame());
        self.in_flight = Some(command);
        Ok(bytes)
    }

    /// Takes what came back from the connection and gives the result for the
    /// one who sent the command under way.
    ///
    /// A frame is read as the answer to that command, and the actor is ready
    /// again. A closed stream and a failure break the connection for good: the
    /// command under way fails with that error, and so does every later one.
    pub fn complete(&mut self, arrival: Arrival) -> (r: Result<Reply, ClientError>)
        ensures
            result_view(r) == arrival_outcome(old(self).state(), arrival@),
            final(self).state() == after_arrival(old(self).state(), arrival@),
    {
        if self.failure.is_some() {
            return Err(ClientError::NotAwaiting);
        }
        let command = match self.in_flight.take() {
            Some(command) => command,
            None => {
                return Err(ClientError::NotAwaiting);
            },
        };
        match arrival {
            Arrival::Response(frame) => interpret(&command, frame),
            Arrival::Closed => {
                self.failure = Some(ConnectionError::ResetByPeer);
                Err(ClientError::Connection(ConnectionError::ResetByPeer))
            },
            Arrival::Failure(cause) => {
                self.failure = Some(cause);
                Err(ClientError::Connection(cause))
            },
        }
    }
}

/// One turn of the actor's loop: a command is taken from the queue; if the
/// actor gives bytes for it, they are written and `arrival` is what comes
/// back. The turn leaves the actor in a state and the sender with a result.
pub open spec fn turn(state: ActorState, command: CommandView, arrival: ArrivalView) -> (
    ActorState,
    Result<ReplyView, ClientErrorView>,
) {
    let taken = after_dispatch(state, command);
    match dispatch_outcome(state, command) {
        Ok(_) => (after_arrival(taken, arrival), arrival_outcome(taken, arrival)),
        Err(e) => (taken, Err(e)),
    }
}

/// The state in which the loop of a fresh actor takes command number `i` of
/// the queue, when `arrivals[j]` is what came back for command `j`.
pub open spec fn state_before(
    commands: Seq<CommandView>,
    arrivals: Seq<ArrivalView>,
    i: nat,
) -> ActorState
    decreases i,
{
    if i == 0 {
        ActorState::Ready
    } else {
        turn(state_before(commands, arrivals, (i - 1) as nat), commands[i - 1], arrivals[i - 1]).0
    }
}

/// The result that the sender of command number `i` of the queue gets.
pub open spec fn result_at(
    commands: Seq<CommandView>,
    arrivals: Seq<ArrivalView>,
    i: nat,
) -> Result<ReplyView, ClientErrorView> {
    turn(state_before(commands, arrivals, i), commands[i as int], arrivals[i as int]).1
}

/// As long as answers come back, each command of the queue is matched with
/// the answer that came back for it: the sender of command `i` gets what
/// answer `i` means for command `i`, and the actor is ready for the next.
pub proof fn lemma_answers_in_order(
    commands: Seq<CommandView>,
    arrivals: Seq<ArrivalView>,
    i: nat,
)
    requires
        commands.len() == arrivals.len(),
        i < commands.len(),
        forall|j: int| 0 <= j <= i ==> #[trigger] arrivals[j] is Response,
    ensures
        state_before(commands, arrivals, i) == ActorState::Ready,
        result_at(commands, arrivals, i) == outcome_of(
            commands[i as int],
            arrivals[i as int]->Response_0,
        ),
        state_before(commands, arrivals, i + 1) == ActorState::Ready,
    decreases i,
{
    if i > 0 {
        lemma_answers_in_order(commands, arrivals, (i - 1) as nat);
    }
}

/// Once the connection fails, nobody waits in vain: where `k` is the first
/// command for which no answer came back, the sender of command `k` and the
/// sender of every command after it get the error that broke the connection.
pub proof fn lemma_fail_fast(
    commands: Seq<CommandView>,
    arrivals: Seq<ArrivalView>,
    k: nat,
    i: nat,
)
    requires
        commands.len() == arrivals.len(),
        k <= i < commands.len(),
        forall|j: int| 0 <= j < k ==> #[trigger] arrivals[j] is Response,
        !(arrivals[k as int] is Response),
    ensures
        result_at(commands, arrivals, i) == Err::<ReplyView, ClientErrorView>(
            ClientErrorView::Connection(arrivals[k as int].cause()),
        ),
        state_before(commands, arrivals, i + 1) == ActorState::Failed(arrivals[k as int].cause()),
    decreases i,
{
    if i == k {
        if k > 0 {
            lemma_answers_in_order(commands, arrivals, (k - 1) as nat);
        }
    } else {
        lemma_fail_fast(commands, arrivals, k, (i - 1) as nat);
    }
}

} // verus!
