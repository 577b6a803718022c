use bytes::Bytes;
use simple_redis::decode::{decode, DecodeError};
use simple_redis::encode::encode;
use simple_redis::frame::Frame;

fn bulk(bytes: &[u8]) -> Frame {
    Frame::Bulk(Bytes::copy_from_slice(bytes))
}

fn sample() -> Frame {
    Frame::Array(vec![
        bulk(b"set"),
        Frame::Simple("key".to_string()),
        Frame::Array(vec![Frame::Integer(-7), Frame::Null, bulk(b"a\r\nb")]),
        Frame::Error("ERR no".to_string()),
        Frame::Array(vec![]),
    ])
}

#[test]
fn encode_simple_string() {
    assert_eq!(encode(&Frame::Simple("OK".to_string())), b"+OK\r\n".to_vec());
}

#[test]
fn encode_error() {
    assert_eq!(encode(&Frame::Error("ERR bad".to_string())), b"-ERR bad\r\n".to_vec());
}

#[test]
fn encode_integers() {
    assert_eq!(encode(&Frame::Integer(0)), b":0\r\n".to_vec());
    assert_eq!(encode(&Frame::Integer(7)), b":7\r\n".to_vec());
    assert_eq!(encode(&Frame::Integer(1000)), b":1000\r\n".to_vec());
    assert_eq!(encode(&Frame::Integer(-42)), b":-42\r\n".to_vec());
    assert_eq!(encode(&Frame::Integer(i64::MAX)), b":9223372036854775807\r\n".to_vec());
    assert_eq!(encode(&Frame::Integer(i64::MIN)), b":-9223372036854775808\r\n".to_vec());
}

#[test]
fn encode_null() {
    assert_eq!(encode(&Frame::Null), b"$-1\r\n".to_vec());
}

#[test]
fn encode_bulk() {
    assert_eq!(encode(&bulk(b"hello")), b"$5\r\nhello\r\n".to_vec());
    assert_eq!(encode(&bulk(b"")), b"$0\r\n\r\n".to_vec());
    assert_eq!(encode(&bulk(b"0123456789ab")), b"$12\r\n0123456789ab\r\n".to_vec());
}

#[test]
fn encode_array_writes_length_then_children() {
    let frame = Frame::Array(vec![bulk(b"get"), bulk(b"k")]);
    assert_eq!(encode(&frame), b"*2\r\n$3\r\nget\r\n$1\r\nk\r\n".to_vec());
    assert_eq!(encode(&Frame::Array(vec![])), b"*0\r\n".to_vec());
}

#[test]
fn encode_nested_array() {
    let frame = Frame::Array(vec![Frame::Array(vec![Frame::Integer(1)]), Frame::Null]);
    assert_eq!(encode(&frame), b"*2\r\n*1\r\n:1\r\n$-1\r\n".to_vec());
}

#[test]
fn encode_non_ascii_text_as_utf8() {
    let frame = Frame::Simple("h\u{e9}".to_string());
    assert_eq!(encode(&frame), vec![b'+', b'h', 0xc3, 0xa9, b'\r', b'\n']);
}

#[test]
fn decode_each_kind() {
    assert_eq!(decode(b"+OK\r\n"), Ok((Frame::Simple("OK".to_string()), 5)));
    assert_eq!(decode(b"-ERR x\r\n"), Ok((Frame::Error("ERR x".to_string()), 8)));
    assert_eq!(decode(b":-12\r\n"), Ok((Frame::Integer(-12), 6)));
    assert_eq!(decode(b"$-1\r\n"), Ok((Frame::Null, 5)));
    assert_eq!(decode(b"$5\r\nhello\r\n"), Ok((bulk(b"hello"), 11)));
    assert_eq!(
        decode(b"*2\r\n$3\r\nget\r\n$1\r\nk\r\n"),
        Ok((Frame::Array(vec![bulk(b"get"), bulk(b"k")]), 20))
    );
}

#[test]
fn decode_stops_at_the_end_of_the_first_frame() {
    assert_eq!(decode(b"+OK\r\n+NEXT\r\n"), Ok((Frame::Simple("OK".to_string()), 5)));
    assert_eq!(decode(b"$2\r\nab\r\njunk"), Ok((bulk(b"ab"), 8)));
    assert_eq!(decode(b"*1\r\n:5\r\n*"), Ok((Frame::Array(vec![Frame::Integer(5)]), 8)));
}

#[test]
fn decode_bulk_may_hold_line_ends() {
    assert_eq!(decode(b"$4\r\na\r\nb\r\n"), Ok((bulk(b"a\r\nb"), 10)));
}

#[test]
fn decode_accepts_leading_zeros() {
    assert_eq!(decode(b":007\r\n"), Ok((Frame::Integer(7), 6)));
    assert_eq!(decode(b"$02\r\nab\r\n"), Ok((bulk(b"ab"), 9)));
    assert_eq!(decode(b":-0\r\n"), Ok((Frame::Integer(0), 5)));
}

#[test]
fn decode_integer_limits() {
    assert_eq!(decode(b":9223372036854775807\r\n"), Ok((Frame::Integer(i64::MAX), 22)));
    assert_eq!(decode(b":-9223372036854775808\r\n"), Ok((Frame::Integer(i64::MIN), 23)));
    assert_eq!(decode(b":9223372036854775808\r\n"), Err(DecodeError::Invalid));
    assert_eq!(decode(b":-9223372036854775809\r\n"), Err(DecodeError::Invalid));
    assert_eq!(decode(b":99999999999999999999999999\r\n"), Err(DecodeError::Invalid));
}

#[test]
fn decode_empty_buffer_is_incomplete() {
    assert_eq!(decode(b""), Err(DecodeError::Incomplete));
}

#[test]
fn decode_incomplete_inputs() {
    assert_eq!(decode(b"+OK"), Err(DecodeError::Incomplete));
    assert_eq!(decode(b"+OK\r"), Err(DecodeError::Incomplete));
    assert_eq!(decode(b"$5\r\nhel"), Err(DecodeError::Incomplete));
    assert_eq!(decode(b"$5\r\nhello"), Err(DecodeError::Incomplete));
    assert_eq!(decode(b"$5\r\nhello\r"), Err(DecodeError::Incomplete));
    assert_eq!(decode(b"*2\r\n:1\r\n"), Err(DecodeError::Incomplete));
    assert_eq!(decode(b"*2"), Err(DecodeError::Incomplete));
    assert_eq!(decode(b"$abc"), Err(DecodeError::Incomplete));
}

#[test]
fn decode_bad_type_tag_is_invalid() {
    assert_eq!(decode(b"x"), Err(DecodeError::Invalid));
    assert_eq!(decode(b"hello\r\n"), Err(DecodeError::Invalid));
    assert_eq!(decode(b"\r\n"), Err(DecodeError::Invalid));
}

#[test]
fn decode_bad_length_prefix_is_invalid() {
    assert_eq!(decode(b"$abc\r\n"), Err(DecodeError::Invalid));
    assert_eq!(decode(b"$\r\n"), Err(DecodeError::Invalid));
    assert_eq!(decode(b"$-2\r\n"), Err(DecodeError::Invalid));
    assert_eq!(decode(b"*-1\r\n"), Err(DecodeError::Invalid));
    assert_eq!(decode(b"*1x\r\n"), Err(DecodeError::Invalid));
    assert_eq!(decode(b"$+5\r\nhello\r\n"), Err(DecodeError::Invalid));
    assert_eq!(decode(b"$18446744073709551616\r\n"), Err(DecodeError::Invalid));
}

#[test]
fn decode_huge_length_waits_for_bytes() {
    assert_eq!(decode(b"$18446744073709551615\r\nab"), Err(DecodeError::Incomplete));
    assert_eq!(decode(b"*18446744073709551615\r\n"), Err(DecodeError::Incomplete));
}

#[test]
fn decode_bad_integer_is_invalid() {
    assert_eq!(decode(b":12a\r\n"), Err(DecodeError::Invalid));
    assert_eq!(decode(b":\r\n"), Err(DecodeError::Invalid));
    assert_eq!(decode(b":-\r\n"), Err(DecodeError::Invalid));
    assert_eq!(decode(b":--1\r\n"), Err(DecodeError::Invalid));
    assert_eq!(decode(b": 1\r\n"), Err(DecodeError::Invalid));
}

#[test]
fn decode_bulk_without_terminator_is_invalid() {
    assert_eq!(decode(b"$5\r\nhelloXY"), Err(DecodeError::Invalid));
    assert_eq!(decode(b"$5\r\nhello\rX"), Err(DecodeError::Invalid));
}

#[test]
fn decode_text_that_is_not_utf8_is_invalid() {
    assert_eq!(decode(b"+\xff\xfe\r\n"), Err(DecodeError::Invalid));
    assert_eq!(decode(b"-\xc3\r\n"), Err(DecodeError::Invalid));
}

#[test]
fn decode_invalid_element_makes_the_array_invalid() {
    assert_eq!(decode(b"*2\r\n:1\r\n?\r\n"), Err(DecodeError::Invalid));
}

#[test]
fn decode_is_repeatable() {
    let partial = b"*2\r\n$3\r\nget".to_vec();
    assert_eq!(decode(&partial), Err(DecodeError::Incomplete));
    assert_eq!(decode(&partial), Err(DecodeError::Incomplete));
    let bad = b"*2\r\n!".to_vec();
    assert_eq!(decode(&bad), Err(DecodeError::Invalid));
    assert_eq!(decode(&bad), Err(DecodeError::Invalid));
}

#[test]
fn round_trip_of_each_kind() {
    let frames = vec![
        Frame::Simple("".to_string()),
        Frame::Simple("PONG".to_string()),
        Frame::Simple("tab\tand \r alone".to_string()),
        Frame::Simple("\u{1F600} \u{e9}\u{4e2d}".to_string()),
        Frame::Error("ERR unknown command".to_string()),
        Frame::Integer(0),
        Frame::Integer(-1),
        Frame::Integer(1234567890123),
        Frame::Integer(i64::MIN),
        Frame::Integer(i64::MAX),
        Frame::Null,
        bulk(b""),
        bulk(b"\r\n"),
        bulk(&[0, 255, 10, 13, 36, 42]),
        Frame::Array(vec![]),
        sample(),
    ];
    for frame in frames {
        let bytes = encode(&frame);
        let n = bytes.len();
        assert_eq!(decode(&bytes), Ok((frame, n)));
    }
}

#[test]
fn round_trip_with_bytes_behind_the_frame() {
    let frame = sample();
    let mut bytes = encode(&frame);
    let n = bytes.len();
    bytes.extend_from_slice(b"*3\r\n$3\r\nset");
    assert_eq!(decode(&bytes), Ok((frame, n)));
}

#[test]
fn every_proper_prefix_is_incomplete() {
    let frame = sample();
    let bytes = encode(&frame);
    for k in 0..bytes.len() {
        assert_eq!(decode(&bytes[..k]), Err(DecodeError::Incomplete), "prefix of {} bytes", k);
    }
    assert_eq!(decode(&bytes), Ok((frame, bytes.len())));
}

#[test]
fn clone_gives_an_equal_frame() {
    let frame = sample();
    assert_eq!(frame.clone(), frame);
}

#[test]
fn array_builder_appends_in_order() {
    let mut frame = Frame::array();
    assert_eq!(frame, Frame::Array(vec![]));
    frame.push_bulk(Bytes::from_static(b"px"));
    frame.push_int(15);
    frame.push_frame(Frame::Null);
    assert_eq!(frame, Frame::Array(vec![bulk(b"px"), Frame::Integer(15), Frame::Null]));
}

#[test]
fn well_formed_frames_hold_no_line_feed_in_text() {
    assert!(sample().is_well_formed());
    assert!(Frame::Simple("".to_string()).is_well_formed());
    assert!(Frame::Simple("a\rb".to_string()).is_well_formed());
    assert!(bulk(b"a\nb").is_well_formed());
    assert!(!Frame::Simple("a\nb".to_string()).is_well_formed());
    assert!(!Frame::Error("\n".to_string()).is_well_formed());
    assert!(!Frame::Simple("\u{e9}\r\n".to_string()).is_well_formed());
    let nested = Frame::Array(vec![
        Frame::Null,
        Frame::Array(vec![Frame::Integer(1), Frame::Error("no\n".to_string())]),
    ]);
    assert!(!nested.is_well_formed());
}

#[test]
fn text_with_a_line_feed_does_not_read_back() {
    let frame = Frame::Simple("a\r\nb".to_string());
    assert!(!frame.is_well_formed());
    let bytes = encode(&frame);
    assert_eq!(decode(&bytes), Ok((Frame::Simple("a".to_string()), 4)));
}
