use bytes::Bytes;
use simple_redis::db::Db;
use simple_redis::frame::Frame;
use simple_redis::server::handle_frame;

fn bulk(bytes: &[u8]) -> Frame {
    Frame::Bulk(Bytes::copy_from_slice(bytes))
}

fn request(words: &[&str]) -> Frame {
    Frame::Array(words.iter().map(|w| bulk(w.as_bytes())).collect())
}

fn ok() -> Frame {
    Frame::Simple("OK".to_string())
}

#[test]
fn set_then_get_over_frames() {
    let mut db = Db::new();
    assert_eq!(handle_frame(&mut db, request(&["SET", "k", "v"]), 0), (ok(), false));
    assert_eq!(handle_frame(&mut db, request(&["GET", "k"]), 1), (bulk(b"v"), false));
    assert_eq!(handle_frame(&mut db, request(&["GET", "absent"]), 1), (Frame::Null, false));
}

#[test]
fn expiration_over_frames() {
    let mut db = Db::new();
    assert_eq!(handle_frame(&mut db, request(&["SET", "k", "v", "PX", "10"]), 500), (ok(), true));
    assert_eq!(handle_frame(&mut db, request(&["GET", "k"]), 509), (bulk(b"v"), false));
    assert_eq!(handle_frame(&mut db, request(&["GET", "k"]), 511), (Frame::Null, false));
    assert_eq!(db.len(), 1);
    assert_eq!(db.purge_expired(511), None);
    assert_eq!(db.len(), 0);
}

#[test]
fn expiration_in_seconds_over_frames() {
    let mut db = Db::new();
    assert_eq!(handle_frame(&mut db, request(&["SET", "k", "v", "EX", "2"]), 0), (ok(), true));
    assert_eq!(handle_frame(&mut db, request(&["GET", "k"]), 1999), (bulk(b"v"), false));
    assert_eq!(handle_frame(&mut db, request(&["GET", "k"]), 2000), (Frame::Null, false));
}

#[test]
fn overwrite_resets_ttl_over_frames() {
    let mut db = Db::new();
    handle_frame(&mut db, request(&["SET", "k", "v1", "EX", "100"]), 0);
    handle_frame(&mut db, request(&["SET", "k", "v2"]), 10);
    assert_eq!(handle_frame(&mut db, request(&["GET", "k"]), 200_000), (bulk(b"v2"), false));
    assert_eq!(handle_frame(&mut db, request(&["GET", "k"]), u64::MAX), (bulk(b"v2"), false));
}

#[test]
fn unknown_set_option_is_an_error_and_changes_nothing() {
    let mut db = Db::new();
    let response = handle_frame(&mut db, request(&["SET", "k", "v", "XY", "5"]), 0);
    assert_eq!(response, (Frame::Error("unsupported SET option".to_string()), false));
    assert_eq!(db.len(), 0);
    assert_eq!(handle_frame(&mut db, request(&["GET", "k"]), 0), (Frame::Null, false));

    handle_frame(&mut db, request(&["SET", "k", "old"]), 0);
    let response = handle_frame(&mut db, request(&["SET", "k", "new", "XY", "5"]), 1);
    assert_eq!(response, (Frame::Error("unsupported SET option".to_string()), false));
    assert_eq!(handle_frame(&mut db, request(&["GET", "k"]), 2), (bulk(b"old"), false));
}

#[test]
fn malformed_requests_get_an_error_frame() {
    let mut db = Db::new();
    assert_eq!(
        handle_frame(&mut db, request(&["FLUSH"]), 0),
        (Frame::Error("unknown command".to_string()), false)
    );
    assert_eq!(
        handle_frame(&mut db, Frame::Integer(1), 0),
        (Frame::Error("protocol error; expected array".to_string()), false)
    );
    assert_eq!(
        handle_frame(&mut db, request(&["GET"]), 0),
        (Frame::Error("protocol error; unexpected end of stream".to_string()), false)
    );
    assert_eq!(
        handle_frame(&mut db, request(&["GET", "a", "b"]), 0),
        (Frame::Error("protocol error; expected end of frame".to_string()), false)
    );
    assert_eq!(
        handle_frame(&mut db, request(&["SET", "k", "v", "EX", "-5"]), 0),
        (Frame::Error("invalid expire time in SET".to_string()), false)
    );
    assert_eq!(db.len(), 0);
}

#[test]
fn ping_over_frames() {
    let mut db = Db::new();
    assert_eq!(
        handle_frame(&mut db, request(&["PING"]), 0),
        (Frame::Simple("PONG".to_string()), false)
    );
    assert_eq!(handle_frame(&mut db, request(&["PING", "abc"]), 0), (bulk(b"abc"), false));
    assert_eq!(db.len(), 0);
}

#[test]
fn many_clients_on_distinct_keys() {
    let mut db = Db::new();
    for round in 0..3u64 {
        for client in 0..20u64 {
            let key = format!("client-{}", client);
            let value = format!("{}-{}", client, round);
            assert_eq!(handle_frame(&mut db, request(&["SET", &key, &value]), round).0, ok());
        }
        for client in 0..20u64 {
            let key = format!("client-{}", client);
            let value = format!("{}-{}", client, round);
            assert_eq!(
                handle_frame(&mut db, request(&["GET", &key]), round).0,
                bulk(value.as_bytes())
            );
        }
    }
    assert_eq!(db.len(), 20);
}
