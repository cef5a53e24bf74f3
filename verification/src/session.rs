//! One connection from end to end: the requests that a client writes in
//! order, the answers that the server writes in order, and what the client
//! makes of them.

use vstd::prelude::*;
use crate::client::{
    lemma_answers_in_order, outcome_of, result_at, ArrivalView, ClientErrorView, ReplyView,
};
use crate::command::{fits, lemma_request_roundtrip, request_for, CommandView};
use crate::frame::FrameView;
use crate::framing::lemma_decode_encode;
use crate::server::{
    lemma_reply_well_formed, reply_to, sendable, store_after, store_with, Contents,
};
use crate::wire::{decoding, encoding, encoding_from, Parsed};

verus! {

/// The store as the server finds it when it comes to request number `i`,
/// having started from `store` and served the requests before it in order.
pub open spec fn store_at(store: Contents, requests: Seq<FrameView>, i: nat) -> Contents
    decreases i,
{
    if i == 0 {
        store
    } else {
        store_after(store_at(store, requests, (i - 1) as nat), requests[i - 1])
    }
}

/// The answers that the server writes to `requests`, one for each in order.
pub open spec fn answers(store: Contents, requests: Seq<FrameView>) -> Seq<FrameView> {
    Seq::new(requests.len(), |i: int| reply_to(store_at(store, requests, i as nat), requests[i]))
}

/// What the one who sends `command` is owed by a server that holds `store`.
pub open spec fn owed(store: Contents, command: CommandView) -> ReplyView {
    match command {
        CommandView::Get { key } => if store.contains_key(key) {
            ReplyView::Value(Some(store[key]))
        } else {
            ReplyView::Value(None)
        },
        CommandView::Put { .. } => ReplyView::Stored,
    }
}

/// The store after the first `i` of `commands` took effect in order.
pub open spec fn state_at(store: Contents, commands: Seq<CommandView>, i: nat) -> Contents
    decreases i,
{
    if i == 0 {
        store
    } else {
        store_with(state_at(store, commands, (i - 1) as nat), commands[i - 1])
    }
}

/// The request frames for `commands`, in order.
pub open spec fn requests_for(commands: Seq<CommandView>) -> Seq<FrameView> {
    Seq::new(commands.len(), |i: int| request_for(commands[i]))
}

/// Frames that were written one after the other are read one after the
/// other: at the front of the bytes of `frames[i..]`, whatever follows them,
/// stands frame `i`, and behind it the bytes of `frames[i + 1..]`.
pub proof fn lemma_read_in_order(frames: Seq<FrameView>, i: nat, tail: Seq<u8>)
    requires
        i < frames.len(),
        frames[i as int].wf(),
    ensures
        decoding(encoding_from(frames, i) + tail) == Parsed::Complete(
            frames[i as int],
            encoding(frames[i as int]).len() as int,
        ),
        (encoding_from(frames, i) + tail).skip(encoding(frames[i as int]).len() as int)
            == encoding_from(frames, i + 1) + tail,
{
    let first = encoding(frames[i as int]);
    let rest = encoding_from(frames, i + 1) + tail;
    assert(encoding_from(frames, i) + tail =~= first + rest);
    lemma_decode_encode(frames[i as int], rest);
}

/// One exchange: a command that is sent as a request, served from `store` and
/// answered comes to what the command is owed, and the store takes the
/// command's effect.
pub proof fn lemma_exchange(store: Contents, command: CommandView)
    requires
        fits(command),
    ensures
        request_for(command).wf(),
        outcome_of(command, reply_to(store, request_for(command))) == Ok::<
            ReplyView,
            ClientErrorView,
        >(owed(store, command)),
        store_after(store, request_for(command)) == store_with(store, command),
{
    lemma_request_roundtrip(command);
}

/// Serving the requests for `commands` moves the store as the commands do.
pub proof fn lemma_store_follows(store: Contents, commands: Seq<CommandView>, i: nat)
    requires
        i <= commands.len(),
        forall|j: int| 0 <= j < commands.len() ==> fits(#[trigger] commands[j]),
    ensures
        store_at(store, requests_for(commands), i) == state_at(store, commands, i),
    decreases i,
{
    if i > 0 {
        lemma_store_follows(store, commands, (i - 1) as nat);
        lemma_exchange(state_at(store, commands, (i - 1) as nat), commands[i - 1]);
    }
}

/// Commands whose values fit leave a store whose values fit.
pub proof fn lemma_state_stays_sendable(store: Contents, commands: Seq<CommandView>, i: nat)
    requires
        sendable(store),
        i <= commands.len(),
        forall|j: int| 0 <= j < commands.len() ==> fits(#[trigger] commands[j]),
    ensures
        sendable(state_at(store, commands, i)),
    decreases i,
{
    if i > 0 {
        lemma_state_stays_sendable(store, commands, (i - 1) as nat);
        let before = state_at(store, commands, (i - 1) as nat);
        match commands[i - 1] {
            CommandView::Get { .. } => {},
            CommandView::Put { key, value } => {
                assert forall|k: Seq<char>| before.insert(key, value).contains_key(k) implies (
                #[trigger] before.insert(key, value)[k]).len() <= u64::MAX by {
                    if k != key {
                        assert(before.contains_key(k));
                    }
                }
            },
        }
    }
}

/// Requests that are submitted in order on one connection are answered in
/// that order, each by the answer to it.
///
/// For command number `i` of `commands`: its request is read by the server at
/// the front of what is left of the client's bytes when the requests before
/// it are consumed; the answer is read by the client at the front of what is
/// left of the server's bytes when the answers before it are consumed; and
/// this answer comes to what the command is owed by the store as the commands
/// before it left it.
pub proof fn lemma_session(
    store: Contents,
    commands: Seq<CommandView>,
    i: nat,
    sent_later: Seq<u8>,
    answered_later: Seq<u8>,
)
    requires
        sendable(store),
        i < commands.len(),
        forall|j: int| 0 <= j < commands.len() ==> fits(#[trigger] commands[j]),
    ensures
        ({
            let requests = requests_for(commands);
            let replies = answers(store, requests);
            &&& replies.len() == commands.len()
            &&& decoding(encoding_from(requests, i) + sent_later) == Parsed::Complete(
                requests[i as int],
                encoding(requests[i as int]).len() as int,
            )
            &&& decoding(encoding_from(replies, i) + answered_later) == Parsed::Complete(
                replies[i as int],
                encoding(replies[i as int]).len() as int,
            )
            &&& outcome_of(commands[i as int], replies[i as int]) == Ok::<
                ReplyView,
                ClientErrorView,
            >(owed(state_at(store, commands, i), commands[i as int]))
        }),
{
    let requests = requests_for(commands);
    let replies = answers(store, requests);
    let before = state_at(store, commands, i);
    lemma_store_follows(store, commands, i);
    lemma_state_stays_sendable(store, commands, i);
    lemma_exchange(before, commands[i as int]);
    lemma_reply_well_formed(before, requests[i as int]);
    lemma_read_in_order(requests, i, sent_later);
    lemma_read_in_order(replies, i, answered_later);
}

/// What comes back to the client for each of `commands` from a server that
/// started with `store` and answers every request.
pub open spec fn arrivals_from(store: Contents, commands: Seq<CommandView>) -> Seq<ArrivalView> {
    Seq::new(
        commands.len(),
        |i: int| ArrivalView::Response(answers(store, requests_for(commands))[i]),
    )
}

/// A queue of commands against a server that answers: the sender of command
/// number `i` gets what the command is owed by the store as the commands
/// before it left it.
pub proof fn lemma_served_queue(store: Contents, commands: Seq<CommandView>, i: nat)
    requires
        sendable(store),
        i < commands.len(),
        forall|j: int| 0 <= j < commands.len() ==> fits(#[trigger] commands[j]),
    ensures
        result_at(commands, arrivals_from(store, commands), i) == Ok::<ReplyView, ClientErrorView>(
            owed(state_at(store, commands, i), commands[i as int]),
        ),
{
    let arrivals = arrivals_from(store, commands);
    lemma_answers_in_order(commands, arrivals, i);
    lemma_session(store, commands, i, Seq::empty(), Seq::empty());
}

} // verus!
