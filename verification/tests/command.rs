use minikv::command::{Command, CommandError};
use minikv::frame::{Frame, Line};

fn simple(text: &str) -> Frame {
    Frame::Simple(Line::new(text.to_string()).unwrap())
}

fn bulk(bytes: &[u8]) -> Frame {
    Frame::Bulk(bytes.to_vec())
}

#[test]
fn get_with_one_argument_is_a_get() {
    let frame = Frame::Array(vec![bulk(b"GET"), bulk(b"foo")]);
    assert_eq!(Command::from_frame(frame), Ok(Command::Get { key: "foo".to_string() }));
}

#[test]
fn set_with_two_arguments_is_a_put() {
    let frame = Frame::Array(vec![bulk(b"SET"), bulk(b"foo"), bulk(b"bar")]);
    assert_eq!(
        Command::from_frame(frame),
        Ok(Command::Put { key: "foo".to_string(), value: b"bar".to_vec() })
    );
}

#[test]
fn command_name_is_matched_without_regard_to_case() {
    for name in [&b"get"[..], b"Get", b"gEt", b"GET"] {
        let frame = Frame::Array(vec![bulk(name), bulk(b"k")]);
        assert_eq!(Command::from_frame(frame), Ok(Command::Get { key: "k".to_string() }));
    }
    for name in [&b"set"[..], b"Set", b"sET", b"SET"] {
        let frame = Frame::Array(vec![bulk(name), bulk(b"k"), bulk(b"v")]);
        assert_eq!(
            Command::from_frame(frame),
            Ok(Command::Put { key: "k".to_string(), value: b"v".to_vec() })
        );
    }
}

#[test]
fn simple_frames_serve_as_name_key_and_value() {
    let frame = Frame::Array(vec![
        simple("set"),
        simple("k\u{e9}y"),
        simple("v\u{e4}l"),
    ]);
    assert_eq!(
        Command::from_frame(frame),
        Ok(Command::Put { key: "k\u{e9}y".to_string(), value: "v\u{e4}l".as_bytes().to_vec() })
    );
}

#[test]
fn value_may_be_any_bytes() {
    let frame = Frame::Array(vec![bulk(b"set"), bulk(b"k"), bulk(b"\xff\x00\r\n")]);
    assert_eq!(
        Command::from_frame(frame),
        Ok(Command::Put { key: "k".to_string(), value: b"\xff\x00\r\n".to_vec() })
    );
}

#[test]
fn frame_that_is_no_array_is_refused() {
    assert_eq!(Command::from_frame(bulk(b"GET foo")), Err(CommandError::NotArray));
    assert_eq!(Command::from_frame(Frame::Null), Err(CommandError::NotArray));
    assert_eq!(Command::from_frame(simple("GET")), Err(CommandError::NotArray));
    assert_eq!(Command::from_frame(Frame::Integer(1)), Err(CommandError::NotArray));
}

#[test]
fn empty_array_is_refused() {
    assert_eq!(Command::from_frame(Frame::Array(Vec::new())), Err(CommandError::MissingName));
}

#[test]
fn name_that_is_no_string_is_refused() {
    let frame = Frame::Array(vec![Frame::Integer(3), bulk(b"foo")]);
    assert_eq!(Command::from_frame(frame), Err(CommandError::InvalidName));
    let frame = Frame::Array(vec![Frame::Null]);
    assert_eq!(Command::from_frame(frame), Err(CommandError::InvalidName));
}

#[test]
fn other_names_are_refused() {
    for name in [&b"DEL"[..], b"PUT", b"PUBLISH", b"SUBSCRIBE", b"", b"GETS", b"GE", b"\xffET"] {
        let frame = Frame::Array(vec![bulk(name), bulk(b"foo")]);
        assert_eq!(Command::from_frame(frame), Err(CommandError::UnknownCommand));
    }
}

#[test]
fn wrong_number_of_arguments_is_refused() {
    let frame = Frame::Array(vec![bulk(b"GET")]);
    assert_eq!(Command::from_frame(frame), Err(CommandError::WrongArity));
    let frame = Frame::Array(vec![bulk(b"GET"), bulk(b"a"), bulk(b"b")]);
    assert_eq!(Command::from_frame(frame), Err(CommandError::WrongArity));
    let frame = Frame::Array(vec![bulk(b"SET"), bulk(b"a")]);
    assert_eq!(Command::from_frame(frame), Err(CommandError::WrongArity));
    let frame = Frame::Array(vec![
        bulk(b"SET"),
        bulk(b"a"),
        bulk(b"b"),
        bulk(b"EX"),
        Frame::Integer(5),
    ]);
    assert_eq!(Command::from_frame(frame), Err(CommandError::WrongArity));
}

#[test]
fn key_that_is_no_text_is_refused() {
    let frame = Frame::Array(vec![bulk(b"GET"), bulk(b"\xff\xfe")]);
    assert_eq!(Command::from_frame(frame), Err(CommandError::InvalidKey));
    let frame = Frame::Array(vec![bulk(b"GET"), Frame::Integer(1)]);
    assert_eq!(Command::from_frame(frame), Err(CommandError::InvalidKey));
    let frame = Frame::Array(vec![bulk(b"SET"), Frame::Null, bulk(b"v")]);
    assert_eq!(Command::from_frame(frame), Err(CommandError::InvalidKey));
}

#[test]
fn value_that_is_no_string_is_refused() {
    let frame = Frame::Array(vec![bulk(b"SET"), bulk(b"k"), Frame::Integer(1)]);
    assert_eq!(Command::from_frame(frame), Err(CommandError::InvalidValue));
    let frame = Frame::Array(vec![bulk(b"SET"), bulk(b"k"), Frame::Array(Vec::new())]);
    assert_eq!(Command::from_frame(frame), Err(CommandError::InvalidValue));
}

#[test]
fn request_frames_are_arrays_of_bulk_frames() {
    let get = Command::Get { key: "foo".to_string() };
    assert_eq!(get.to_frame(), Frame::Array(vec![bulk(b"get"), bulk(b"foo")]));
    let put = Command::Put { key: "foo".to_string(), value: b"bar".to_vec() };
    assert_eq!(put.to_frame(), Frame::Array(vec![bulk(b"set"), bulk(b"foo"), bulk(b"bar")]));
}

#[test]
fn request_frames_are_read_back_as_their_commands() {
    let commands = vec![
        Command::Get { key: String::new() },
        Command::Get { key: "k\r\n\u{1f600}".to_string() },
        Command::Put { key: "foo".to_string(), value: Vec::new() },
        Command::Put { key: "foo".to_string(), value: (0u8..=255).collect() },
    ];
    for command in commands {
        let frame = command.to_frame();
        assert_eq!(Command::from_frame(frame), Ok(command));
    }
}

#[test]
fn every_error_has_a_one_line_message() {
    let errors = [
        (CommandError::NotArray, "ERR request is not an array"),
        (CommandError::MissingName, "ERR request is empty"),
        (CommandError::InvalidName, "ERR command name is not a string"),
        (CommandError::UnknownCommand, "ERR unknown command"),
        (CommandError::WrongArity, "ERR wrong number of arguments"),
        (CommandError::InvalidKey, "ERR key is not text"),
        (CommandError::InvalidValue, "ERR value is not a string"),
    ];
    for (error, message) in errors {
        assert_eq!(error.message(), message);
        assert_eq!(error.line().as_str(), message);
    }
}
