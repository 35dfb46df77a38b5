use bytes::Bytes;
use redis_resp::{
    command_from_value, drop_prefix, encode_value, find_crlf, respond, take_prefix, CommandError, CommandReader,
    ParseError, Value,
};

fn reader_with(input: &'static str) -> CommandReader {
    let mut reader = CommandReader::new();
    assert!(reader.needs_input());
    reader.receive(Bytes::from(input)).unwrap();
    reader
}

#[test]
fn command_with_missing_argument_fails_with_empty_input() {
    let mut reader = reader_with("*2\r\n$4\r\nPING\r\n");
    assert_eq!(reader.next_command(), Err(CommandError::Parse(ParseError::EmptyInput)));
    assert!(reader.needs_input());
}

#[test]
fn ping_command_is_read() {
    let mut reader = reader_with("*1\r\n$4\r\nPING\r\n");
    let (name, args) = reader.next_command().unwrap();
    assert_eq!(name, "PING".to_string());
    assert_eq!(args, vec![]);
    assert!(reader.needs_input());
}

#[test]
fn echo_command_is_read_and_answered() {
    let mut reader = reader_with("*2\r\n$4\r\nECHO\r\n$2\r\nhi\r\n");
    let (name, args) = reader.next_command().unwrap();
    assert_eq!(name, "ECHO".to_string());
    assert_eq!(args, vec![Value::Bulk { size: 2, data: Bytes::from("hi") }]);
    let reply = respond(&name, args).unwrap();
    assert_eq!(encode_value(&reply), b"$2\r\nhi\r\n".to_vec());
}

#[test]
fn command_name_is_upper_cased() {
    let mut reader = reader_with("*2\r\n+echo\r\n$1\r\nx\r\n");
    let (name, args) = reader.next_command().unwrap();
    assert_eq!(name, "ECHO".to_string());
    assert_eq!(args.len(), 1);
    let value = Value::Array { len: 1, elements: vec![Value::String("s\u{e9}t-x".to_string())] };
    assert_eq!(command_from_value(value).unwrap().0, "S\u{e9}T-X".to_string());
}

#[test]
fn arguments_keep_their_order() {
    let mut reader = reader_with("*4\r\n$3\r\ncmd\r\n:1\r\n+two\r\n$5\r\nthree\r\n");
    let (name, args) = reader.next_command().unwrap();
    assert_eq!(name, "CMD".to_string());
    assert_eq!(
        args,
        vec![
            Value::Number(1),
            Value::String("two".to_string()),
            Value::Bulk { size: 5, data: Bytes::from("three") }
        ]
    );
}

#[test]
fn command_shape_errors() {
    assert_eq!(command_from_value(Value::Number(3)), Err(CommandError::InvalidCommandShape));
    assert_eq!(
        command_from_value(Value::Array { len: 0, elements: vec![] }),
        Err(CommandError::InvalidCommandShape)
    );
    assert_eq!(
        command_from_value(Value::Array { len: 1, elements: vec![] }),
        Err(CommandError::InvalidCommandShape)
    );
    assert_eq!(
        command_from_value(Value::Array { len: 1, elements: vec![Value::Number(1)] }),
        Err(CommandError::NotAString)
    );
    assert_eq!(
        command_from_value(Value::Array {
            len: 1,
            elements: vec![Value::Bulk { size: 1, data: Bytes::from(vec![0xffu8]) }]
        }),
        Err(CommandError::Encoding)
    );
}

#[test]
fn as_string_reads_strings_only() {
    assert_eq!(Value::String("a".to_string()).as_string(), Ok("a".to_string()));
    assert_eq!(Value::Bulk { size: 2, data: Bytes::from("\u{e9}") }.as_string(), Ok("\u{e9}".to_string()));
    assert_eq!(Value::Bulk { size: 1, data: Bytes::from(vec![0x80u8]) }.as_string(), Err(CommandError::Encoding));
    assert_eq!(Value::Number(1).as_string(), Err(CommandError::NotAString));
    assert_eq!(Value::Error("e".to_string()).as_string(), Err(CommandError::NotAString));
}

#[test]
fn two_commands_in_one_read_are_both_served() {
    let mut reader = reader_with("*1\r\n$4\r\nPING\r\n*1\r\n$4\r\nping\r\n");
    assert_eq!(reader.next_command().unwrap().0, "PING".to_string());
    assert!(!reader.needs_input());
    assert_eq!(reader.pending_len(), 14);
    assert_eq!(reader.next_command().unwrap().0, "PING".to_string());
    assert!(reader.needs_input());
}

#[test]
fn received_bytes_are_appended_to_pending_ones() {
    let mut reader = reader_with("+A");
    reader.receive(Bytes::from("B\r\n")).unwrap();
    assert_eq!(reader.pending_len(), 5);
    assert_eq!(reader.next_value(), Ok(Value::String("AB".to_string())));
}

#[test]
fn empty_read_means_peer_closed() {
    let mut reader = reader_with("+A");
    assert_eq!(reader.receive(Bytes::new()), Err(CommandError::PeerClosed));
    assert_eq!(reader.pending_len(), 2);
}

#[test]
fn parse_failure_drops_pending_bytes() {
    let mut reader = reader_with("?x\r\n+ok\r\n");
    assert_eq!(reader.next_value(), Err(CommandError::Parse(ParseError::UnknownType(b'?'))));
    assert!(reader.needs_input());
    assert_eq!(reader.next_value(), Err(CommandError::Parse(ParseError::EmptyInput)));
}

#[test]
fn non_array_command_is_rejected() {
    let mut reader = reader_with("+PING\r\n");
    assert_eq!(reader.next_command(), Err(CommandError::InvalidCommandShape));
}

#[test]
fn replies_follow_the_command_table() {
    let pong = respond(&"PING".to_string(), vec![]).unwrap();
    assert_eq!(encode_value(&pong), b"+PONG\r\n".to_vec());
    let wrong = respond(&"ECHO".to_string(), vec![]).unwrap();
    assert_eq!(encode_value(&wrong), b"-wrong number of arguments for command\r\n".to_vec());
    assert_eq!(respond(&"ECHO".to_string(), vec![Value::Number(1)]), None);
    let unknown = respond(&"GET".to_string(), vec![]).unwrap();
    assert_eq!(encode_value(&unknown), b"-unsupported command\r\n".to_vec());
}

#[test]
fn cursor_takes_and_drops_prefixes() {
    let mut buffer = Bytes::from("hello\r\nworld");
    assert_eq!(find_crlf(&buffer), Some(5));
    assert_eq!(take_prefix(&mut buffer, 2), Ok(Bytes::from("he")));
    assert_eq!(buffer, Bytes::from("llo\r\nworld"));
    assert_eq!(drop_prefix(&mut buffer, 5), Ok(()));
    assert_eq!(buffer, Bytes::from("world"));
    assert_eq!(find_crlf(&buffer), None);
    assert_eq!(take_prefix(&mut buffer, 6), Err(ParseError::OutOfBounds));
    assert_eq!(drop_prefix(&mut buffer, 6), Err(ParseError::OutOfBounds));
    assert_eq!(buffer, Bytes::from("world"));
    assert_eq!(find_crlf(&Bytes::from("\r\r\n")), Some(1));
    assert_eq!(find_crlf(&Bytes::from("\r")), None);
}
