use bytes::Bytes;
use simple_redis::client::{get_response, ping_response, set_response, ResponseError};
use simple_redis::frame::Frame;

fn bulk(bytes: &[u8]) -> Frame {
    Frame::Bulk(Bytes::copy_from_slice(bytes))
}

fn refused(text: &str) -> ResponseError {
    ResponseError::Refused(text.to_string())
}

#[test]
fn get_response_reads_value_or_null() {
    assert_eq!(get_response(bulk(b"v")), Ok(Some(Bytes::from_static(b"v"))));
    assert_eq!(get_response(Frame::Simple("s\u{e9}".to_string())), Ok(Some(Bytes::from("s\u{e9}"))));
    assert_eq!(get_response(Frame::Null), Ok(None));
}

#[test]
fn get_response_refuses_other_frames() {
    assert_eq!(get_response(Frame::Error("ERR x".to_string())), Err(refused("ERR x")));
    assert_eq!(get_response(Frame::Integer(1)), Err(ResponseError::Unexpected));
    assert_eq!(get_response(Frame::Array(vec![])), Err(ResponseError::Unexpected));
}

#[test]
fn set_response_wants_ok() {
    assert_eq!(set_response(Frame::Simple("OK".to_string())), Ok(()));
    assert_eq!(set_response(Frame::Simple("ok".to_string())), Err(ResponseError::Unexpected));
    assert_eq!(set_response(Frame::Simple("OKAY".to_string())), Err(ResponseError::Unexpected));
    assert_eq!(set_response(bulk(b"OK")), Err(ResponseError::Unexpected));
    assert_eq!(set_response(Frame::Null), Err(ResponseError::Unexpected));
    assert_eq!(
        set_response(Frame::Error("unsupported SET option".to_string())),
        Err(refused("unsupported SET option"))
    );
}

#[test]
fn ping_response_reads_the_echo() {
    assert_eq!(ping_response(Frame::Simple("PONG".to_string())), Ok(Bytes::from_static(b"PONG")));
    assert_eq!(ping_response(bulk(b"abc")), Ok(Bytes::from_static(b"abc")));
    assert_eq!(ping_response(Frame::Null), Err(ResponseError::Unexpected));
    assert_eq!(ping_response(Frame::Error("no".to_string())), Err(refused("no")));
}
