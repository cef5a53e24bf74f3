use std::io::Cursor;

use minikv::codec::{decode, encode};
use minikv::command::Command;
use minikv::frame::{Frame, Line};

fn simple(text: &str) -> Frame {
    Frame::Simple(Line::new(text.to_string()).unwrap())
}

fn error(text: &str) -> Frame {
    Frame::Error(Line::new(text.to_string()).unwrap())
}

fn to_outside(frame: &Frame) -> mini_redis::Frame {
    match frame {
        Frame::Simple(text) => mini_redis::Frame::Simple(text.as_str().to_string()),
        Frame::Error(text) => mini_redis::Frame::Error(text.as_str().to_string()),
        Frame::Integer(n) => mini_redis::Frame::Integer(*n),
        Frame::Bulk(bytes) => mini_redis::Frame::Bulk(bytes::Bytes::from(bytes.clone())),
        Frame::Null => mini_redis::Frame::Null,
        Frame::Array(items) => mini_redis::Frame::Array(items.iter().map(to_outside).collect()),
    }
}

fn from_outside(frame: &mini_redis::Frame) -> Frame {
    match frame {
        mini_redis::Frame::Simple(text) => simple(text),
        mini_redis::Frame::Error(text) => error(text),
        mini_redis::Frame::Integer(n) => Frame::Integer(*n),
        mini_redis::Frame::Bulk(bytes) => Frame::Bulk(bytes.to_vec()),
        mini_redis::Frame::Null => Frame::Null,
        mini_redis::Frame::Array(items) => Frame::Array(items.iter().map(from_outside).collect()),
    }
}

fn wire_samples() -> Vec<Frame> {
    vec![
        simple("OK"),
        simple("h\u{e9}llo"),
        error("ERR unknown command 'foo'"),
        Frame::Integer(0),
        Frame::Integer(u64::MAX),
        Frame::Bulk(Vec::new()),
        Frame::Bulk(b"bar".to_vec()),
        Frame::Bulk(b"line\r\nbreak\0\xff".to_vec()),
        Frame::Null,
        Frame::Array(Vec::new()),
        Frame::Array(vec![
            Frame::Bulk(b"set".to_vec()),
            Frame::Bulk(b"foo".to_vec()),
            Frame::Bulk(b"bar".to_vec()),
        ]),
        Frame::Array(vec![Frame::Array(vec![Frame::Integer(1), Frame::Null])]),
    ]
}

#[test]
fn mini_redis_reads_what_the_library_writes() {
    for frame in wire_samples() {
        let bytes = encode(&frame);
        let mut check = Cursor::new(&bytes[..]);
        assert!(mini_redis::Frame::check(&mut check).is_ok());
        assert_eq!(check.position() as usize, bytes.len());
        let mut cursor = Cursor::new(&bytes[..]);
        let parsed = mini_redis::Frame::parse(&mut cursor).unwrap();
        assert_eq!(from_outside(&parsed), frame);
    }
}

#[test]
fn mini_redis_and_the_library_agree_on_partial_frames() {
    for frame in wire_samples() {
        let bytes = encode(&frame);
        for k in 1..bytes.len() {
            let mut cursor = Cursor::new(&bytes[..k]);
            let outside = mini_redis::Frame::check(&mut cursor);
            assert!(matches!(outside, Err(mini_redis::frame::Error::Incomplete)));
            assert_eq!(decode(&bytes[..k]), Ok(None));
        }
    }
}

#[test]
fn mini_redis_reads_the_librarys_requests_as_the_same_commands() {
    let get = Command::Get { key: "foo".to_string() };
    match mini_redis::Command::from_frame(to_outside(&get.to_frame())).unwrap() {
        mini_redis::Command::Get(cmd) => assert_eq!(cmd.key(), "foo"),
        other => panic!("not a get: {:?}", other),
    }
    let put = Command::Put { key: "foo".to_string(), value: b"b\0r".to_vec() };
    match mini_redis::Command::from_frame(to_outside(&put.to_frame())).unwrap() {
        mini_redis::Command::Set(cmd) => {
            assert_eq!(cmd.key(), "foo");
            assert_eq!(&cmd.value()[..], b"b\0r");
            assert_eq!(cmd.expire(), None);
        }
        other => panic!("not a set: {:?}", other),
    }
}

#[test]
fn the_library_reads_mini_redis_requests_as_the_same_commands() {
    let requests = vec![
        mini_redis::Frame::Array(vec![
            mini_redis::Frame::Bulk(bytes::Bytes::from_static(b"get")),
            mini_redis::Frame::Bulk(bytes::Bytes::from_static(b"foo")),
        ]),
        mini_redis::Frame::Array(vec![
            mini_redis::Frame::Bulk(bytes::Bytes::from_static(b"set")),
            mini_redis::Frame::Bulk(bytes::Bytes::from_static(b"foo")),
            mini_redis::Frame::Bulk(bytes::Bytes::from_static(b"bar")),
        ]),
    ];
    let get = Command::from_frame(from_outside(&requests[0]));
    assert_eq!(get, Ok(Command::Get { key: "foo".to_string() }));
    let put = Command::from_frame(from_outside(&requests[1]));
    assert_eq!(put, Ok(Command::Put { key: "foo".to_string(), value: b"bar".to_vec() }));
    match mini_redis::Command::from_frame(requests[0].clone()).unwrap() {
        mini_redis::Command::Get(cmd) => assert_eq!(cmd.key(), "foo"),
        other => panic!("not a get: {:?}", other),
    }
}
