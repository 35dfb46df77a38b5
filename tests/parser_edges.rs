use bytes::Bytes;
use redis_resp::{encode_value, parse_resp, ParseError, Value, MAX_NESTING};

fn parse(input: &[u8]) -> (Result<(Value, Bytes), ParseError>, Bytes) {
    let mut buffer = Bytes::from(input.to_vec());
    let r = parse_resp(&mut buffer);
    (r, buffer)
}

#[test]
fn leftover_parses_to_the_next_value_and_then_nothing_is_left() {
    let (first, _) = parse(b"+Test\r\n+Foo\r\n");
    let (value, mut rest) = first.unwrap();
    assert_eq!(value, Value::String("Test".to_string()));
    assert_eq!(rest, Bytes::from("+Foo\r\n"));
    let (value, rest) = parse_resp(&mut rest).unwrap();
    assert_eq!(value, Value::String("Foo".to_string()));
    assert_eq!(rest, Bytes::from(""));
}

#[test]
fn bulk_data_is_the_declared_prefix_whatever_follows_it() {
    let (r, _) = parse(b"$3\r\nabcXYZ\r\n+next\r\n");
    let (value, rest) = r.unwrap();
    assert_eq!(value, Value::Bulk { size: 3, data: Bytes::from("abc") });
    assert_eq!(rest, Bytes::from("+next\r\n"));
}

#[test]
fn bulk_data_may_hold_a_terminator() {
    let (r, _) = parse(b"$4\r\na\r\nb\r\n");
    let (value, rest) = r.unwrap();
    assert_eq!(value, Value::Bulk { size: 4, data: Bytes::from("a\r\nb") });
    assert_eq!(rest, Bytes::from(""));
}

#[test]
fn bulk_without_terminator_after_its_data_fails() {
    let (r, buffer) = parse(b"$2\r\nhiXY");
    assert_eq!(r, Err(ParseError::MissingTerminator));
    assert_eq!(buffer, Bytes::from("XY"));
}

#[test]
fn negative_bulk_size_fails() {
    let (r, buffer) = parse(b"$-1\r\n\r\n");
    assert_eq!(r, Err(ParseError::OutOfBounds));
    assert_eq!(buffer, Bytes::from("\r\n"));
    let (r, _) = parse(b"$-1\r\n");
    assert_eq!(r, Err(ParseError::BulkOverrun { declared: -1, available: 0 }));
}

#[test]
fn array_declaring_more_elements_than_present_fails_with_empty_input() {
    let (r, buffer) = parse(b"*3\r\n:1\r\n:2\r\n");
    assert_eq!(r, Err(ParseError::EmptyInput));
    assert_eq!(buffer, Bytes::from(""));
}

#[test]
fn array_with_negative_length_has_no_elements() {
    let (r, _) = parse(b"*-1\r\n+after\r\n");
    let (value, rest) = r.unwrap();
    assert_eq!(value, Value::Array { len: -1, elements: vec![] });
    assert_eq!(rest, Bytes::from("+after\r\n"));
}

#[test]
fn array_failure_inside_an_element_propagates() {
    let (r, _) = parse(b"*2\r\n:1\r\n?\r\n");
    assert_eq!(r, Err(ParseError::UnknownType(b'?')));
}

#[test]
fn error_tag_is_not_parsed() {
    let (r, buffer) = parse(b"-ERR boom\r\n");
    assert_eq!(r, Err(ParseError::UnknownType(b'-')));
    assert_eq!(buffer, Bytes::from("ERR boom\r\n"));
}

#[test]
fn non_numeric_integer_fails() {
    let (r, buffer) = parse(b":12a\r\n+x\r\n");
    assert_eq!(r, Err(ParseError::InvalidInteger));
    assert_eq!(buffer, Bytes::from("+x\r\n"));
    let (r, _) = parse(b":\r\n");
    assert_eq!(r, Err(ParseError::InvalidInteger));
    let (r, _) = parse(b":-\r\n");
    assert_eq!(r, Err(ParseError::InvalidInteger));
}

#[test]
fn integer_out_of_range_fails() {
    let (r, _) = parse(b":9223372036854775808\r\n");
    assert_eq!(r, Err(ParseError::InvalidInteger));
    let (r, _) = parse(b":-9223372036854775808\r\n");
    assert_eq!(r.unwrap().0, Value::Number(i64::MIN));
}

#[test]
fn integer_with_plus_sign_is_read() {
    let (r, _) = parse(b":+42\r\n");
    assert_eq!(r.unwrap().0, Value::Number(42));
}

#[test]
fn invalid_utf8_string_fails_with_encoding() {
    let (r, buffer) = parse(b"+\xff\xfe\r\n");
    assert_eq!(r, Err(ParseError::Encoding));
    assert_eq!(buffer, Bytes::from("\r\n"));
}

#[test]
fn utf8_string_is_decoded() {
    let (r, _) = parse("+h\u{e9}llo \u{1f600}\r\n".as_bytes());
    assert_eq!(r.unwrap().0, Value::String("h\u{e9}llo \u{1f600}".to_string()));
}

#[test]
fn integer_line_without_terminator_fails() {
    let (r, buffer) = parse(b":12");
    assert_eq!(r, Err(ParseError::MissingTerminator));
    assert_eq!(buffer, Bytes::from("12"));
}

fn nested(depth: usize) -> Vec<u8> {
    let mut input = Vec::new();
    for _ in 0..depth {
        input.extend_from_slice(b"*1\r\n");
    }
    input.extend_from_slice(b":7\r\n");
    input
}

#[test]
fn nesting_up_to_the_limit_is_accepted() {
    let (r, _) = parse(&nested(MAX_NESTING));
    let (mut value, rest) = r.unwrap();
    assert_eq!(rest, Bytes::from(""));
    for _ in 0..MAX_NESTING {
        match value {
            Value::Array { len: 1, mut elements } => value = elements.remove(0),
            other => panic!("unexpected value: {:?}", other),
        }
    }
    assert_eq!(value, Value::Number(7));
}

#[test]
fn nesting_beyond_the_limit_fails() {
    assert_eq!(MAX_NESTING, 32);
    let (r, _) = parse(&nested(MAX_NESTING + 1));
    assert_eq!(r, Err(ParseError::NestingTooDeep));
}

#[test]
fn encoding_then_parsing_gives_the_value_back() {
    let value = Value::Array {
        len: 4,
        elements: vec![
            Value::String("h\u{e9}llo".to_string()),
            Value::Number(-12345),
            Value::Bulk { size: 4, data: Bytes::from("a\r\nb") },
            Value::Array { len: 2, elements: vec![Value::Number(0), Value::Array { len: 0, elements: vec![] }] },
        ],
    };
    let bytes = encode_value(&value);
    assert_eq!(
        bytes,
        b"*4\r\n+h\xc3\xa9llo\r\n:-12345\r\n$4\r\na\r\nb\r\n*2\r\n:0\r\n*0\r\n".to_vec()
    );
    let mut buffer = Bytes::from(bytes);
    let (parsed, rest) = parse_resp(&mut buffer).unwrap();
    assert_eq!(parsed, value);
    assert_eq!(rest, Bytes::from(""));
}

#[test]
fn encoding_writes_each_kind() {
    assert_eq!(encode_value(&Value::String("OK".to_string())), b"+OK\r\n".to_vec());
    assert_eq!(encode_value(&Value::Error("bad".to_string())), b"-bad\r\n".to_vec());
    assert_eq!(encode_value(&Value::Number(i64::MIN)), b":-9223372036854775808\r\n".to_vec());
    assert_eq!(encode_value(&Value::Number(1000)), b":1000\r\n".to_vec());
    assert_eq!(encode_value(&Value::Number(0)), b":0\r\n".to_vec());
    assert_eq!(
        encode_value(&Value::Bulk { size: 2, data: Bytes::from("hi") }),
        b"$2\r\nhi\r\n".to_vec()
    );
    assert_eq!(encode_value(&Value::Array { len: 0, elements: vec![] }), b"*0\r\n".to_vec());
}
