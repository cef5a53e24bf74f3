use minikv::connection::{ConnectionError, Progress};
use minikv::frame::{Frame, Line};
use minikv::command::{Command, CommandError};
use minikv::server::{apply, refuse, respond, Action, Event, Phase, Session};
use minikv::store::Store;

fn simple(text: &str) -> Frame {
    Frame::Simple(Line::new(text.to_string()).unwrap())
}

fn error(text: &str) -> Frame {
    Frame::Error(Line::new(text.to_string()).unwrap())
}

fn serve(session: &mut Session, store: &mut Store, event: Event) -> Option<Frame> {
    match session.step(event) {
        Action::Apply(command) => Some(apply(store, command)),
        Action::Reply(response) => Some(response),
        Action::Close => None,
    }
}

fn request(words: &[&[u8]]) -> Frame {
    Frame::Array(words.iter().map(|word| Frame::Bulk(word.to_vec())).collect())
}

#[test]
fn set_then_get_gives_the_value() {
    let mut store = Store::new();
    assert_eq!(
        respond(&mut store, request(&[b"SET", b"foo", b"bar"])),
        simple("OK")
    );
    assert_eq!(respond(&mut store, request(&[b"GET", b"foo"])), Frame::Bulk(b"bar".to_vec()));
}

#[test]
fn get_of_a_missing_key_gives_null() {
    let mut store = Store::new();
    assert_eq!(respond(&mut store, request(&[b"GET", b"missing"])), Frame::Null);
    assert_eq!(store.get("missing"), None);
}

#[test]
fn unknown_command_gives_an_error_and_the_connection_goes_on() {
    let mut store = Store::new();
    let mut session = Session::new();
    let action = session.step(Event::Request(request(&[b"DEL", b"foo"])));
    assert_eq!(action, Action::Reply(error("ERR unknown command")));
    assert_eq!(session.current_phase(), Phase::Serving);
    let put = Event::Request(request(&[b"SET", b"foo", b"bar"]));
    let answer = serve(&mut session, &mut store, put);
    assert_eq!(answer, Some(simple("OK")));
    let answer = serve(&mut session, &mut store, Event::Request(request(&[b"GET", b"foo"])));
    assert_eq!(answer, Some(Frame::Bulk(b"bar".to_vec())));
    assert!(!session.is_closed());
}

#[test]
fn every_refusal_is_an_error_frame_and_leaves_the_store() {
    let cases: Vec<(Frame, &str)> = vec![
        (Frame::Null, "ERR request is not an array"),
        (Frame::Array(Vec::new()), "ERR request is empty"),
        (Frame::Array(vec![Frame::Integer(1)]), "ERR command name is not a string"),
        (request(&[b"INCR", b"x"]), "ERR unknown command"),
        (request(&[b"GET"]), "ERR wrong number of arguments"),
        (request(&[b"SET", b"k"]), "ERR wrong number of arguments"),
        (request(&[b"GET", b"\xff"]), "ERR key is not text"),
        (
            Frame::Array(vec![
                Frame::Bulk(b"SET".to_vec()),
                Frame::Bulk(b"k".to_vec()),
                Frame::Null,
            ]),
            "ERR value is not a string",
        ),
    ];
    let mut store = Store::new();
    store.set("k".to_string(), b"kept".to_vec());
    for (frame, message) in cases {
        assert_eq!(respond(&mut store, frame), error(message));
        assert_eq!(store.get("k"), Some(b"kept".to_vec()));
    }
}

#[test]
fn session_starts_accepted_and_serves_after_a_request() {
    let mut store = Store::new();
    let mut session = Session::new();
    assert_eq!(session.current_phase(), Phase::Accepted);
    assert!(!session.is_closed());
    let action = session.step(Event::Request(request(&[b"GET", b"a"])));
    assert_eq!(action, Action::Apply(Command::Get { key: "a".to_string() }));
    assert_eq!(session.current_phase(), Phase::Serving);
    assert_eq!(store.get("a"), None);
}

#[test]
fn end_of_stream_closes_the_session() {
    let mut store = Store::new();
    let mut session = Session::new();
    assert_eq!(serve(&mut session, &mut store, Event::End), None);
    assert_eq!(session.current_phase(), Phase::Closed);
    assert!(session.is_closed());
}

#[test]
fn failure_closes_the_session() {
    let mut store = Store::new();
    let mut session = Session::new();
    serve(&mut session, &mut store, Event::Request(request(&[b"SET", b"a", b"1"])));
    assert_eq!(session.step(Event::Failure), Action::Close);
    assert!(session.is_closed());
    assert_eq!(store.get("a"), Some(b"1".to_vec()));
}

#[test]
fn closed_session_serves_nothing() {
    let mut store = Store::new();
    let mut session = Session::new();
    session.step(Event::End);
    let action = session.step(Event::Request(request(&[b"SET", b"a", b"1"])));
    assert_eq!(action, Action::Close);
    assert_eq!(session.step(Event::Request(Frame::Null)), Action::Close);
    assert_eq!(store.get("a"), None);
    assert!(session.is_closed());
}

#[test]
fn sessions_share_a_store_but_not_their_fate() {
    let mut store = Store::new();
    let mut first = Session::new();
    let mut second = Session::new();
    serve(&mut first, &mut store, Event::Request(request(&[b"SET", b"k", b"from first"])));
    assert_eq!(first.step(Event::Failure), Action::Close);
    let answer = serve(&mut second, &mut store, Event::Request(request(&[b"GET", b"k"])));
    assert_eq!(answer, Some(Frame::Bulk(b"from first".to_vec())));
    assert!(!second.is_closed());
}

#[test]
fn progress_of_reading_becomes_an_event() {
    let mut store = Store::new();
    let mut session = Session::new();
    assert!(Event::of(Progress::NeedMore).is_none());
    let event = Event::of(Progress::Frame(request(&[b"GET", b"a"]))).unwrap();
    assert_eq!(serve(&mut session, &mut store, event), Some(Frame::Null));
    let event = Event::of(Progress::End).unwrap();
    assert_eq!(session.step(event), Action::Close);

    let mut session = Session::new();
    let event = Event::of(Progress::Failed(ConnectionError::ResetByPeer)).unwrap();
    assert_eq!(session.step(event), Action::Close);
    assert!(session.is_closed());
}

#[test]
fn apply_is_one_operation_on_the_store() {
    let mut store = Store::new();
    let put = Command::Put { key: "k".to_string(), value: b"v".to_vec() };
    assert_eq!(apply(&mut store, put), simple("OK"));
    assert_eq!(store.get("k"), Some(b"v".to_vec()));
    let get = Command::Get { key: "k".to_string() };
    assert_eq!(apply(&mut store, get), Frame::Bulk(b"v".to_vec()));
    let get = Command::Get { key: "other".to_string() };
    assert_eq!(apply(&mut store, get), Frame::Null);
}

#[test]
fn refusal_carries_the_reason() {
    assert_eq!(refuse(CommandError::WrongArity), error("ERR wrong number of arguments"));
    assert_eq!(refuse(CommandError::UnknownCommand), error("ERR unknown command"));
}
