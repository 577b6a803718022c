use bytes::Bytes;
use simple_redis::cmd::get::Get;
use simple_redis::cmd::ping::Ping;
use simple_redis::cmd::set::SetCmd;
use simple_redis::text::matches_word;
use simple_redis::cmd::Command;
use simple_redis::db::Db;
use simple_redis::frame::Frame;
use simple_redis::parse::{Parse, ParseError};
use std::time::Duration;

fn bulk(bytes: &[u8]) -> Frame {
    Frame::Bulk(Bytes::copy_from_slice(bytes))
}

fn request(words: &[&str]) -> Frame {
    Frame::Array(words.iter().map(|w| bulk(w.as_bytes())).collect())
}

fn parsed(words: &[&str]) -> Result<Command, ParseError> {
    Command::from_frame(request(words))
}

fn parsed_set(words: &[&str]) -> SetCmd {
    match parsed(words) {
        Ok(Command::SetCmd(cmd)) => cmd,
        other => panic!("not a SET: {:?}", other),
    }
}

fn failure(words: &[&str]) -> ParseError {
    match parsed(words) {
        Err(e) => e,
        Ok(cmd) => panic!("accepted as {:?}", cmd),
    }
}

#[test]
fn get_holds_its_key() {
    let cmd = Get::new("hello");
    assert_eq!(cmd.key(), "hello");
    assert_eq!(Get::new("").key(), "");
}

#[test]
fn get_into_frame() {
    assert_eq!(Get::new("foo").into_frame(), request(&["get", "foo"]));
}

#[test]
fn get_parse_frames_reads_the_key() {
    let frame = Frame::Array(vec![Frame::Simple("k1".to_string())]);
    let mut parse = Parse::new(frame).unwrap();
    let cmd = Get::parse_frames(&mut parse).unwrap();
    assert_eq!(cmd.key(), "k1");
    assert_eq!(parse.finish(), Ok(()));
    let mut parse = Parse::new(request(&["k2"])).unwrap();
    assert_eq!(Get::parse_frames(&mut parse).unwrap().key(), "k2");
}

#[test]
fn get_parse_frames_refuses_a_second_argument() {
    let mut parse = Parse::new(request(&["GET", "k", "extra"])).unwrap();
    assert_eq!(parse.next_string(), Ok("GET".to_string()));
    assert!(matches!(Get::parse_frames(&mut parse), Err(ParseError::TrailingData)));
    assert_eq!(parse.next(), Ok(bulk(b"extra")));
    let frame = Frame::Array(vec![Frame::Simple("k1".to_string()), Frame::Null]);
    let mut parse = Parse::new(frame).unwrap();
    assert!(matches!(Get::parse_frames(&mut parse), Err(ParseError::TrailingData)));
}

#[test]
fn get_parse_frames_fails_without_a_key() {
    let mut parse = Parse::new(Frame::Array(vec![])).unwrap();
    assert!(matches!(Get::parse_frames(&mut parse), Err(ParseError::EndOfStream)));
    let mut parse = Parse::new(Frame::Array(vec![Frame::Integer(1)])).unwrap();
    assert!(matches!(Get::parse_frames(&mut parse), Err(ParseError::NotAString)));
}

#[test]
fn get_from_frame() {
    match parsed(&["GET", "foo"]) {
        Ok(Command::Get(cmd)) => assert_eq!(cmd.key(), "foo"),
        other => panic!("not a GET: {:?}", other),
    }
    assert_eq!(failure(&["GET"]), ParseError::EndOfStream);
    assert_eq!(failure(&["GET", "a", "b"]), ParseError::TrailingData);
}

#[test]
fn command_names_ignore_case() {
    assert!(matches!(parsed(&["get", "k"]), Ok(Command::Get(_))));
    assert!(matches!(parsed(&["GeT", "k"]), Ok(Command::Get(_))));
    assert!(matches!(parsed(&["sEt", "k", "v"]), Ok(Command::SetCmd(_))));
    assert!(matches!(parsed(&["PING"]), Ok(Command::Ping(_))));
    assert!(matches!(parsed(&["pInG"]), Ok(Command::Ping(_))));
}

#[test]
fn command_name_may_be_a_simple_string() {
    let frame = Frame::Array(vec![Frame::Simple("get".to_string()), bulk(b"k")]);
    assert!(matches!(Command::from_frame(frame), Ok(Command::Get(_))));
}

#[test]
fn unknown_commands_are_refused() {
    assert_eq!(failure(&["DEL", "k"]), ParseError::UnknownCommand);
    assert_eq!(failure(&["gets", "k"]), ParseError::UnknownCommand);
    assert_eq!(failure(&["ge", "k"]), ParseError::UnknownCommand);
    assert_eq!(failure(&[""]), ParseError::UnknownCommand);
    assert_eq!(failure(&["g\u{c5}t", "k"]), ParseError::UnknownCommand);
}

#[test]
fn a_request_must_be_an_array_that_starts_with_text() {
    assert!(matches!(Command::from_frame(Frame::Null), Err(ParseError::NotAnArray)));
    assert!(matches!(Command::from_frame(bulk(b"get")), Err(ParseError::NotAnArray)));
    assert!(matches!(Command::from_frame(Frame::Array(vec![])), Err(ParseError::EndOfStream)));
    let frame = Frame::Array(vec![Frame::Integer(3)]);
    assert!(matches!(Command::from_frame(frame), Err(ParseError::NotAString)));
}

#[test]
fn set_holds_its_parts() {
    let cmd = SetCmd::new("k", Bytes::from_static(b"v"), Some(Duration::from_millis(1500)));
    assert_eq!(cmd.key(), "k");
    assert_eq!(cmd.value(), &Bytes::from_static(b"v"));
    assert_eq!(cmd.expire(), Some(Duration::from_millis(1500)));
    let plain = SetCmd::new("k", Bytes::new(), None);
    assert_eq!(plain.expire(), None);
}

#[test]
fn set_keeps_the_time_to_live_as_given() {
    let ten = SetCmd::new("k", Bytes::from("v"), Some(Duration::from_millis(10)));
    assert_eq!(ten.key(), "k");
    assert_eq!(ten.value(), &Bytes::from_static(b"v"));
    assert_eq!(ten.expire(), Some(Duration::from_millis(10)));
    let fine = SetCmd::new("k", Bytes::new(), Some(Duration::from_micros(1500)));
    assert_eq!(fine.expire(), Some(Duration::from_micros(1500)));
    assert_ne!(fine.expire(), Some(Duration::from_millis(1)));
    let nanos = SetCmd::new("k", Bytes::new(), Some(Duration::new(3, 7)));
    assert_eq!(nanos.expire(), Some(Duration::new(3, 7)));
}

#[test]
fn set_without_expiration() {
    let cmd = parsed_set(&["SET", "k", "v"]);
    assert_eq!(cmd.key(), "k");
    assert_eq!(cmd.value(), &Bytes::from_static(b"v"));
    assert_eq!(cmd.expire(), None);
}

#[test]
fn set_ex_counts_seconds() {
    let cmd = parsed_set(&["SET", "k", "v", "EX", "100"]);
    assert_eq!(cmd.expire(), Some(Duration::from_secs(100)));
    assert_eq!(cmd.expire().unwrap().as_millis(), 100_000);
    let lower = parsed_set(&["set", "k", "v", "ex", "2"]);
    assert_eq!(lower.expire(), Some(Duration::from_millis(2000)));
}

#[test]
fn set_px_counts_milliseconds() {
    let cmd = parsed_set(&["SET", "k", "v", "PX", "10"]);
    assert_eq!(cmd.expire(), Some(Duration::from_millis(10)));
    let mixed = parsed_set(&["SET", "k", "v", "pX", "0"]);
    assert_eq!(mixed.expire(), Some(Duration::from_millis(0)));
}

#[test]
fn set_takes_the_time_as_an_integer_frame() {
    let frame = Frame::Array(vec![
        bulk(b"set"),
        bulk(b"k"),
        Frame::Simple("v".to_string()),
        bulk(b"px"),
        Frame::Integer(250),
    ]);
    match Command::from_frame(frame) {
        Ok(Command::SetCmd(cmd)) => {
            assert_eq!(cmd.value(), &Bytes::from_static(b"v"));
            assert_eq!(cmd.expire(), Some(Duration::from_millis(250)));
        },
        other => panic!("not a SET: {:?}", other),
    }
}

#[test]
fn set_value_may_be_any_bytes() {
    let frame = Frame::Array(vec![bulk(b"SET"), bulk(b"k"), bulk(&[0xff, 0x00, b'\n'])]);
    match Command::from_frame(frame) {
        Ok(Command::SetCmd(cmd)) => assert_eq!(cmd.value(), &Bytes::from_static(&[0xff, 0, b'\n'])),
        other => panic!("not a SET: {:?}", other),
    }
}

#[test]
fn set_unknown_option_is_refused() {
    assert_eq!(failure(&["SET", "k", "v", "XY", "5"]), ParseError::UnsupportedSetOption);
    assert_eq!(failure(&["SET", "k", "v", "XY"]), ParseError::UnsupportedSetOption);
    assert_eq!(failure(&["SET", "k", "v", "E"]), ParseError::UnsupportedSetOption);
    assert_eq!(failure(&["SET", "k", "v", "EXX", "5"]), ParseError::UnsupportedSetOption);
    assert_eq!(failure(&["SET", "k", "v", "5"]), ParseError::UnsupportedSetOption);
}

#[test]
fn set_malformed_arguments() {
    assert_eq!(failure(&["SET"]), ParseError::EndOfStream);
    assert_eq!(failure(&["SET", "k"]), ParseError::EndOfStream);
    assert_eq!(failure(&["SET", "k", "v", "EX"]), ParseError::EndOfStream);
    assert_eq!(failure(&["SET", "k", "v", "EX", "soon"]), ParseError::NotAnInteger);
    assert_eq!(failure(&["SET", "k", "v", "PX", "-1"]), ParseError::NegativeExpiration);
    assert_eq!(failure(&["SET", "k", "v", "EX", "1", "more"]), ParseError::TrailingData);
    let frame = Frame::Array(vec![bulk(b"SET"), bulk(b"k"), Frame::Integer(1)]);
    assert!(matches!(Command::from_frame(frame), Err(ParseError::NotABulk)));
    let frame = Frame::Array(vec![bulk(b"SET"), bulk(b"k"), bulk(b"v"), Frame::Integer(1)]);
    assert!(matches!(Command::from_frame(frame), Err(ParseError::NotAString)));
}

#[test]
fn set_into_frame_without_expiration() {
    let cmd = SetCmd::new("k", Bytes::from_static(b"v"), None);
    assert_eq!(cmd.into_frame(), request(&["set", "k", "v"]));
}

#[test]
fn set_into_frame_always_sends_milliseconds() {
    let cmd = SetCmd::new("k", Bytes::from_static(b"v"), Some(Duration::from_secs(100)));
    let expected = Frame::Array(vec![
        bulk(b"set"),
        bulk(b"k"),
        bulk(b"v"),
        bulk(b"px"),
        Frame::Integer(100_000),
    ]);
    assert_eq!(cmd.into_frame(), expected);
    let sub = SetCmd::new("k", Bytes::new(), Some(Duration::from_micros(2999)));
    match sub.into_frame() {
        Frame::Array(items) => assert_eq!(items[4], Frame::Integer(2)),
        other => panic!("not an array: {:?}", other),
    }
}

#[test]
fn set_into_frame_cuts_a_time_beyond_the_wire() {
    let cmd = SetCmd::new("k", Bytes::new(), Some(Duration::from_secs(u64::MAX)));
    match cmd.into_frame() {
        Frame::Array(items) => assert_eq!(items[4], Frame::Integer(i64::MAX)),
        other => panic!("not an array: {:?}", other),
    }
}

#[test]
fn a_request_reads_back_as_the_command() {
    let sent = SetCmd::new("k\u{e9}", Bytes::from_static(b"v"), Some(Duration::from_secs(3)));
    match Command::from_frame(Command::SetCmd(sent).into_frame()) {
        Ok(Command::SetCmd(cmd)) => {
            assert_eq!(cmd.key(), "k\u{e9}");
            assert_eq!(cmd.value(), &Bytes::from_static(b"v"));
            assert_eq!(cmd.expire(), Some(Duration::from_secs(3)));
        },
        other => panic!("not a SET: {:?}", other),
    }
    match Command::from_frame(Command::Get(Get::new("a b")).into_frame()) {
        Ok(Command::Get(cmd)) => assert_eq!(cmd.key(), "a b"),
        other => panic!("not a GET: {:?}", other),
    }
    let ping = Command::Ping(Ping::new(Some(Bytes::from_static(b"hi"))));
    match Command::from_frame(ping.into_frame()) {
        Ok(Command::Ping(cmd)) => assert_eq!(cmd.apply(), bulk(b"hi")),
        other => panic!("not a PING: {:?}", other),
    }
}

#[test]
fn ping_without_message_answers_pong() {
    assert_eq!(Ping::new(None).apply(), Frame::Simple("PONG".to_string()));
    match parsed(&["PING"]) {
        Ok(Command::Ping(cmd)) => assert_eq!(cmd.apply(), Frame::Simple("PONG".to_string())),
        other => panic!("not a PING: {:?}", other),
    }
}

#[test]
fn ping_with_message_echoes_it() {
    assert_eq!(Ping::new(Some(Bytes::from_static(b"abc"))).apply(), bulk(b"abc"));
    match parsed(&["PING", "abc"]) {
        Ok(Command::Ping(cmd)) => assert_eq!(cmd.apply(), bulk(b"abc")),
        other => panic!("not a PING: {:?}", other),
    }
    assert_eq!(Ping::new(Some(Bytes::new())).apply(), bulk(b""));
}

#[test]
fn ping_malformed_arguments() {
    assert_eq!(failure(&["PING", "a", "b"]), ParseError::TrailingData);
    let frame = Frame::Array(vec![bulk(b"PING"), Frame::Integer(1)]);
    assert!(matches!(Command::from_frame(frame), Err(ParseError::NotABulk)));
}

#[test]
fn ping_into_frame() {
    assert_eq!(Ping::new(None).into_frame(), request(&["ping"]));
    assert_eq!(Ping::new(Some(Bytes::from_static(b"yo"))).into_frame(), request(&["ping", "yo"]));
}

#[test]
fn get_apply_answers_from_the_store() {
    let mut db = Db::new();
    assert_eq!(Get::new("k").apply(&db, 0), Frame::Null);
    db.set("k".to_string(), Bytes::from_static(b"v"), None, 0);
    assert_eq!(Get::new("k").apply(&db, 5), bulk(b"v"));
    assert_eq!(Get::new("K").apply(&db, 5), Frame::Null);
}

#[test]
fn set_apply_writes_and_answers_ok() {
    let mut db = Db::new();
    let cmd = SetCmd::new("k", Bytes::from_static(b"v"), Some(Duration::from_millis(10)));
    let (response, notify) = cmd.apply(&mut db, 100);
    assert_eq!(response, Frame::Simple("OK".to_string()));
    assert!(notify);
    assert_eq!(db.get("k", 109), Some(Bytes::from_static(b"v")));
    assert_eq!(db.get("k", 110), None);
    let plain = SetCmd::new("j", Bytes::from_static(b"w"), None);
    let (response, notify) = plain.apply(&mut db, 100);
    assert_eq!(response, Frame::Simple("OK".to_string()));
    assert!(!notify);
}

#[test]
fn command_apply_dispatches() {
    let mut db = Db::new();
    let set = Command::SetCmd(SetCmd::new("k", Bytes::from_static(b"v"), None));
    assert_eq!(set.apply(&mut db, 1), (Frame::Simple("OK".to_string()), false));
    let get = Command::Get(Get::new("k"));
    assert_eq!(get.apply(&mut db, 2), (bulk(b"v"), false));
    let ping = Command::Ping(Ping::new(None));
    assert_eq!(ping.apply(&mut db, 3), (Frame::Simple("PONG".to_string()), false));
    assert_eq!(db.len(), 1);
}

#[test]
fn words_match_without_regard_to_case() {
    assert!(matches_word(b"ex", b"EX"));
    assert!(matches_word(b"Ex", b"eX"));
    assert!(matches_word(b"", b""));
    assert!(!matches_word(b"ex", b"exx"));
    assert!(!matches_word(b"e", b"ex"));
    assert!(!matches_word(b"px", b"ex"));
    assert!(!matches_word(b"@x", b"`x"));
    assert!(!matches_word(b"[", b"{"));
}
