use bytes::Bytes;
use simple_redis::frame::Frame;
use simple_redis::parse::{read_i64, Parse, ParseError};

fn bulk(bytes: &[u8]) -> Frame {
    Frame::Bulk(Bytes::copy_from_slice(bytes))
}

fn cursor(items: Vec<Frame>) -> Parse {
    match Parse::new(Frame::Array(items)) {
        Ok(parse) => parse,
        Err(e) => panic!("an array was refused: {:?}", e),
    }
}

#[test]
fn cursor_needs_an_array() {
    assert!(matches!(Parse::new(Frame::Null), Err(ParseError::NotAnArray)));
    assert!(matches!(Parse::new(Frame::Simple("get".to_string())), Err(ParseError::NotAnArray)));
    assert!(matches!(Parse::new(bulk(b"get")), Err(ParseError::NotAnArray)));
    assert!(matches!(Parse::new(Frame::Integer(1)), Err(ParseError::NotAnArray)));
    assert!(Parse::new(Frame::Array(vec![])).is_ok());
}

#[test]
fn next_walks_the_elements_in_order() {
    let mut parse = cursor(vec![Frame::Integer(1), Frame::Null, bulk(b"x")]);
    assert_eq!(parse.next(), Ok(Frame::Integer(1)));
    assert_eq!(parse.next(), Ok(Frame::Null));
    assert_eq!(parse.next(), Ok(bulk(b"x")));
    assert_eq!(parse.next(), Err(ParseError::EndOfStream));
    assert_eq!(parse.next(), Err(ParseError::EndOfStream));
}

#[test]
fn next_string_takes_simple_and_bulk() {
    let mut parse = cursor(vec![Frame::Simple("abc".to_string()), bulk("d\u{e9}f".as_bytes())]);
    assert_eq!(parse.next_string(), Ok("abc".to_string()));
    assert_eq!(parse.next_string(), Ok("d\u{e9}f".to_string()));
    assert_eq!(parse.next_string(), Err(ParseError::EndOfStream));
}

#[test]
fn next_string_refuses_other_frames() {
    let mut parse = cursor(vec![
        Frame::Integer(5),
        bulk(&[0xff, 0xfe]),
        Frame::Null,
        Frame::Array(vec![]),
        Frame::Error("e".to_string()),
        Frame::Simple("after".to_string()),
    ]);
    assert_eq!(parse.next_string(), Err(ParseError::NotAString));
    assert_eq!(parse.next_string(), Err(ParseError::NotAString));
    assert_eq!(parse.next_string(), Err(ParseError::NotAString));
    assert_eq!(parse.next_string(), Err(ParseError::NotAString));
    assert_eq!(parse.next_string(), Err(ParseError::NotAString));
    assert_eq!(parse.next_string(), Ok("after".to_string()));
}

#[test]
fn next_bytes_takes_bulk_and_simple() {
    let mut parse = cursor(vec![bulk(&[0, 1, 255]), Frame::Simple("h\u{e9}".to_string())]);
    assert_eq!(parse.next_bytes(), Ok(Bytes::from_static(&[0, 1, 255])));
    assert_eq!(parse.next_bytes(), Ok(Bytes::from_static(&[b'h', 0xc3, 0xa9])));
    assert_eq!(parse.next_bytes(), Err(ParseError::EndOfStream));
}

#[test]
fn next_bytes_refuses_other_frames() {
    let mut parse = cursor(vec![Frame::Integer(5), Frame::Null, bulk(b"ok")]);
    assert_eq!(parse.next_bytes(), Err(ParseError::NotABulk));
    assert_eq!(parse.next_bytes(), Err(ParseError::NotABulk));
    assert_eq!(parse.next_bytes(), Ok(Bytes::from_static(b"ok")));
}

#[test]
fn next_int_takes_integers_and_their_text() {
    let mut parse = cursor(vec![
        Frame::Integer(-3),
        Frame::Simple("42".to_string()),
        bulk(b"-9223372036854775808"),
        bulk(b"0010"),
    ]);
    assert_eq!(parse.next_int(), Ok(-3));
    assert_eq!(parse.next_int(), Ok(42));
    assert_eq!(parse.next_int(), Ok(i64::MIN));
    assert_eq!(parse.next_int(), Ok(10));
    assert_eq!(parse.next_int(), Err(ParseError::EndOfStream));
}

#[test]
fn next_int_refuses_what_is_no_number() {
    let mut parse = cursor(vec![
        Frame::Simple("4x".to_string()),
        bulk(b""),
        bulk(b"9223372036854775808"),
        Frame::Null,
        Frame::Integer(8),
    ]);
    assert_eq!(parse.next_int(), Err(ParseError::NotAnInteger));
    assert_eq!(parse.next_int(), Err(ParseError::NotAnInteger));
    assert_eq!(parse.next_int(), Err(ParseError::NotAnInteger));
    assert_eq!(parse.next_int(), Err(ParseError::NotAnInteger));
    assert_eq!(parse.next_int(), Ok(8));
}

#[test]
fn finish_wants_nothing_left() {
    let mut parse = cursor(vec![Frame::Null]);
    assert_eq!(parse.finish(), Err(ParseError::TrailingData));
    assert_eq!(parse.next(), Ok(Frame::Null));
    assert_eq!(parse.finish(), Ok(()));
    assert_eq!(cursor(vec![]).finish(), Ok(()));
}

#[test]
fn read_i64_reads_the_whole_slice() {
    assert_eq!(read_i64(b"15"), Some(15));
    assert_eq!(read_i64(b"-15"), Some(-15));
    assert_eq!(read_i64(b"9223372036854775807"), Some(i64::MAX));
    assert_eq!(read_i64(b"9223372036854775808"), None);
    assert_eq!(read_i64(b"15 "), None);
    assert_eq!(read_i64(b""), None);
}

#[test]
fn every_parse_error_has_its_message() {
    assert_eq!(ParseError::UnsupportedSetOption.message(), "unsupported SET option");
    assert_eq!(ParseError::UnknownCommand.message(), "unknown command");
    assert_eq!(ParseError::EndOfStream.message(), "protocol error; unexpected end of stream");
    assert_eq!(ParseError::NotAnArray.message(), "protocol error; expected array");
    assert_eq!(ParseError::NotAString.message(), "protocol error; expected string");
    assert_eq!(ParseError::NotAnInteger.message(), "protocol error; expected integer");
    assert_eq!(ParseError::NotABulk.message(), "protocol error; expected bulk string");
    assert_eq!(ParseError::TrailingData.message(), "protocol error; expected end of frame");
    assert_eq!(ParseError::NegativeExpiration.message(), "invalid expire time in SET");
}
