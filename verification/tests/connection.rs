use minikv::codec::encode;
use minikv::connection::{Connection, ConnectionError, Progress};
use minikv::frame::{Frame, Line};
use minikv::wire::ProtocolError;

fn simple(text: &str) -> Frame {
    Frame::Simple(Line::new(text.to_string()).unwrap())
}

fn error(text: &str) -> Frame {
    Frame::Error(Line::new(text.to_string()).unwrap())
}

#[test]
fn fresh_connection_holds_nothing() {
    let mut conn = Connection::new();
    assert_eq!(conn.pending(), 0);
    assert_eq!(conn.next_frame(), Ok(None));
    assert_eq!(conn.end_of_stream(), Ok(()));
}

#[test]
fn frame_fed_byte_by_byte_appears_with_its_last_byte() {
    let frames = vec![
        simple("OK"),
        Frame::Bulk(b"some\r\nbytes".to_vec()),
        Frame::Null,
        Frame::Integer(77),
        Frame::Array(vec![
            Frame::Bulk(b"set".to_vec()),
            Frame::Bulk(b"foo".to_vec()),
            Frame::Array(vec![error("nested")]),
        ]),
    ];
    for frame in frames {
        let bytes = encode(&frame);
        let mut conn = Connection::new();
        for (i, byte) in bytes.iter().enumerate() {
            conn.receive(&[*byte]);
            if i + 1 < bytes.len() {
                assert_eq!(conn.next_frame(), Ok(None));
                assert_eq!(conn.pending(), i + 1);
            }
        }
        assert_eq!(conn.next_frame(), Ok(Some(frame)));
        assert_eq!(conn.pending(), 0);
        assert_eq!(conn.next_frame(), Ok(None));
    }
}

#[test]
fn frames_in_one_chunk_come_out_in_order() {
    let first = Frame::Array(vec![Frame::Bulk(b"get".to_vec()), Frame::Bulk(b"a".to_vec())]);
    let second = simple("second");
    let third = Frame::Null;
    let mut chunk = encode(&first);
    chunk.extend_from_slice(&encode(&second));
    chunk.extend_from_slice(&encode(&third));
    chunk.extend_from_slice(b"+par");
    let mut conn = Connection::new();
    conn.receive(&chunk);
    assert_eq!(conn.next_frame(), Ok(Some(first)));
    assert_eq!(conn.next_frame(), Ok(Some(second)));
    assert_eq!(conn.next_frame(), Ok(Some(third)));
    assert_eq!(conn.next_frame(), Ok(None));
    assert_eq!(conn.pending(), 4);
    conn.receive(b"tial\r\n");
    assert_eq!(conn.next_frame(), Ok(Some(simple("partial"))));
}

#[test]
fn end_of_stream_between_frames_is_clean() {
    let mut conn = Connection::new();
    conn.receive(b"+OK\r\n");
    assert_eq!(conn.next_frame(), Ok(Some(simple("OK"))));
    assert_eq!(conn.end_of_stream(), Ok(()));
}

#[test]
fn end_of_stream_inside_a_frame_is_a_reset() {
    let mut conn = Connection::new();
    conn.receive(b"$5\r\nhel");
    assert_eq!(conn.next_frame(), Ok(None));
    assert_eq!(conn.end_of_stream(), Err(ConnectionError::ResetByPeer));
}

#[test]
fn malformed_bytes_are_reported_and_kept() {
    let mut conn = Connection::new();
    conn.receive(b"hello\r\n");
    assert_eq!(conn.next_frame(), Err(ProtocolError::UnknownMarker(b'h')));
    assert_eq!(conn.pending(), 7);
}

#[test]
fn poll_finds_what_has_arrived() {
    let mut conn = Connection::new();
    assert_eq!(conn.poll(), Progress::NeedMore);
    conn.receive(b":1\r\n:2\r\n:");
    assert_eq!(conn.poll(), Progress::Frame(Frame::Integer(1)));
    assert_eq!(conn.poll(), Progress::Frame(Frame::Integer(2)));
    assert_eq!(conn.poll(), Progress::NeedMore);
    assert_eq!(conn.pending(), 1);
}

#[test]
fn after_read_takes_the_chunk_in() {
    let mut conn = Connection::new();
    assert_eq!(conn.after_read(b"$3\r\nb"), Progress::NeedMore);
    assert_eq!(conn.after_read(b"ar\r\n+O"), Progress::Frame(Frame::Bulk(b"bar".to_vec())));
    assert_eq!(conn.pending(), 2);
    assert_eq!(conn.after_read(b"K\r\n"), Progress::Frame(simple("OK")));
    assert_eq!(conn.pending(), 0);
}

#[test]
fn empty_read_on_an_empty_buffer_is_the_end() {
    let mut conn = Connection::new();
    assert_eq!(conn.after_read(b""), Progress::End);
    conn.receive(b"-gone\r\n");
    assert_eq!(conn.poll(), Progress::Frame(error("gone")));
    assert_eq!(conn.after_read(b""), Progress::End);
}

#[test]
fn empty_read_inside_a_frame_is_a_reset() {
    let mut conn = Connection::new();
    assert_eq!(conn.after_read(b"*2\r\n:1\r\n"), Progress::NeedMore);
    assert_eq!(conn.after_read(b""), Progress::Failed(ConnectionError::ResetByPeer));
    assert_eq!(conn.pending(), 8);
}

#[test]
fn malformed_bytes_fail_the_connection() {
    let mut conn = Connection::new();
    assert_eq!(
        conn.after_read(b"GET foo\r\n"),
        Progress::Failed(ConnectionError::Protocol(ProtocolError::UnknownMarker(b'G')))
    );
    assert_eq!(
        conn.poll(),
        Progress::Failed(ConnectionError::Protocol(ProtocolError::UnknownMarker(b'G')))
    );
    let mut conn = Connection::new();
    assert_eq!(
        conn.after_read(b"$1\r\nabc"),
        Progress::Failed(ConnectionError::Protocol(ProtocolError::MissingTerminator))
    );
}
