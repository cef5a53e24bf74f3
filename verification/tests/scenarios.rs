use minikv::client::{Actor, Arrival, ClientError};
use minikv::codec::encode;
use minikv::connection::{Connection, ConnectionError, Progress};
use minikv::console::{parse_line, report};
use minikv::frame::{Frame, Line};
use minikv::server::{apply, Action, Event, Session};
use minikv::store::Store;

/// A server with one connection, fed with bytes and answering with bytes.
struct Server {
    store: Store,
    session: Session,
    inbound: Connection,
}

impl Server {
    fn fresh() -> Server {
        Server { store: Store::new(), session: Session::new(), inbound: Connection::new() }
    }

    /// Takes in `bytes` and gives back what the server writes in answer.
    fn feed(&mut self, bytes: &[u8]) -> Vec<u8> {
        let mut written = Vec::new();
        let mut progress = self.inbound.after_read(bytes);
        while let Some(event) = Event::of(progress) {
            let response = match self.session.step(event) {
                Action::Apply(command) => apply(&mut self.store, command),
                Action::Reply(response) => response,
                Action::Close => break,
            };
            written.extend_from_slice(&encode(&response));
            progress = self.inbound.poll();
        }
        written
    }
}

/// A client with its actor, typing lines and printing what comes back.
struct Client {
    actor: Actor,
    inbound: Connection,
}

impl Client {
    fn fresh() -> Client {
        Client { actor: Actor::new(), inbound: Connection::new() }
    }

    /// Types `line` against `server` and gives the line that is printed.
    fn type_line(&mut self, server: &mut Server, line: &str) -> String {
        let command = match parse_line(line) {
            Ok(command) => command,
            Err(error) => return error.message(),
        };
        let result = match self.actor.dispatch(command.clone()) {
            Ok(request) => {
                let answer = server.feed(&request);
                let progress = self.inbound.after_read(&answer);
                self.actor.complete(Arrival::of(progress).unwrap())
            }
            Err(error) => Err(error),
        };
        report(&command, &result)
    }
}

#[test]
fn set_foo_bar_then_get_foo() {
    let mut server = Server::fresh();
    let mut client = Client::fresh();
    assert_eq!(client.type_line(&mut server, "PUT foo bar"), "Got Set Ok(Ok(()))");
    assert_eq!(client.type_line(&mut server, "GET foo"), "Got Get b\"bar\"");
}

#[test]
fn set_foo_bar_on_the_wire() {
    let mut server = Server::fresh();
    let answer = server.feed(b"*3\r\n$3\r\nSET\r\n$3\r\nfoo\r\n$3\r\nbar\r\n");
    assert_eq!(answer, b"+OK\r\n".to_vec());
    let answer = server.feed(b"*2\r\n$3\r\nGET\r\n$3\r\nfoo\r\n");
    assert_eq!(answer, b"$3\r\nbar\r\n".to_vec());
}

#[test]
fn get_missing_on_an_empty_store() {
    let mut server = Server::fresh();
    assert_eq!(server.feed(b"*2\r\n$3\r\nGET\r\n$7\r\nmissing\r\n"), b"$-1\r\n".to_vec());
    let mut client = Client::fresh();
    assert_eq!(client.type_line(&mut server, "GET missing"), "Got Get b\"no value found\"");
}

#[test]
fn unknown_command_then_valid_commands() {
    let mut server = Server::fresh();
    let answer = server.feed(b"*2\r\n$3\r\nDEL\r\n$3\r\nfoo\r\n");
    assert_eq!(answer, b"-ERR unknown command\r\n".to_vec());
    assert!(!server.session.is_closed());
    let mut client = Client::fresh();
    assert_eq!(client.type_line(&mut server, "PUT foo bar"), "Got Set Ok(Ok(()))");
    assert_eq!(client.type_line(&mut server, "GET foo"), "Got Get b\"bar\"");
}

#[test]
fn refusal_reaches_the_client_as_an_error() {
    let mut actor = Actor::new();
    actor.dispatch(parse_line("GET foo").unwrap()).unwrap();
    let mut inbound = Connection::new();
    let progress = inbound.after_read(b"-ERR unknown command\r\n");
    assert_eq!(
        progress,
        Progress::Frame(Frame::Error(Line::new("ERR unknown command".to_string()).unwrap()))
    );
    let result = actor.complete(Arrival::of(progress).unwrap());
    assert_eq!(result, Err(ClientError::Refused("ERR unknown command".to_string())));
    assert_eq!(
        report(&parse_line("GET foo").unwrap(), &result),
        "Got Get error: server refused: ERR unknown command"
    );
}

#[test]
fn pipelined_requests_are_answered_in_order() {
    let mut server = Server::fresh();
    let mut requests = b"*3\r\n$3\r\nset\r\n$1\r\na\r\n$1\r\n1\r\n".to_vec();
    requests.extend_from_slice(b"*2\r\n$3\r\nget\r\n$1\r\na\r\n");
    requests.extend_from_slice(b"*2\r\n$3\r\nget\r\n$1\r\nb\r\n");
    assert_eq!(server.feed(&requests), b"+OK\r\n$1\r\n1\r\n$-1\r\n".to_vec());
}

#[test]
fn request_split_over_reads_is_answered_once() {
    let mut server = Server::fresh();
    assert_eq!(server.feed(b"*2\r\n$3\r\nGE"), Vec::<u8>::new());
    assert_eq!(server.feed(b"T\r\n$1\r"), Vec::<u8>::new());
    assert_eq!(server.feed(b"\nk\r\n"), b"$-1\r\n".to_vec());
}

#[test]
fn malformed_bytes_close_the_connection() {
    let mut server = Server::fresh();
    assert_eq!(server.feed(b"GET foo\r\n"), Vec::<u8>::new());
    assert!(server.session.is_closed());
    assert_eq!(server.feed(b"*2\r\n$3\r\nGET\r\n$3\r\nfoo\r\n"), Vec::<u8>::new());
}

#[test]
fn killed_server_fails_the_request_in_flight_and_all_after_it() {
    let mut client = Client::fresh();
    let command = parse_line("GET foo").unwrap();
    client.actor.dispatch(command.clone()).unwrap();
    let progress = client.inbound.after_read(b"");
    let result = client.actor.complete(Arrival::of(progress).unwrap());
    assert_eq!(result, Err(ClientError::Connection(ConnectionError::ResetByPeer)));
    assert_eq!(report(&command, &result), "Got Get error: connection reset by peer");

    let mut server = Server::fresh();
    assert_eq!(
        client.type_line(&mut server, "PUT foo bar"),
        "Got Set error: connection reset by peer"
    );
    assert_eq!(server.store.get("foo"), None);
}

#[test]
fn server_killed_in_the_middle_of_its_answer() {
    let mut client = Client::fresh();
    let command = parse_line("GET foo").unwrap();
    client.actor.dispatch(command.clone()).unwrap();
    assert_eq!(client.inbound.after_read(b"$3\r\nb"), Progress::NeedMore);
    let progress = client.inbound.after_read(b"");
    assert_eq!(progress, Progress::Failed(ConnectionError::ResetByPeer));
    let result = client.actor.complete(Arrival::of(progress).unwrap());
    assert_eq!(report(&command, &result), "Got Get error: connection reset by peer");
}

#[test]
fn malformed_line_sends_nothing() {
    let mut server = Server::fresh();
    let mut client = Client::fresh();
    assert_eq!(client.type_line(&mut server, "DEL foo"), "accpets only GET X or PUT X Y");
    assert_eq!(client.type_line(&mut server, "GET"), "error reading key");
    assert_eq!(client.type_line(&mut server, "PUT"), "unable to read key");
    assert_eq!(client.type_line(&mut server, "PUT foo"), "unable to read val");
    assert_eq!(server.inbound.pending(), 0);
    assert_eq!(client.actor.failure(), None);
}
