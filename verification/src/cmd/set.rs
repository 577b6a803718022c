//! `SET key value [EX seconds | PX milliseconds]`: writes a key.

use crate::text::{matches_word, same_word, text_bytes};
use crate::db::{deadline, expires_first, stored, ttl_millis, Db};
use crate::frame::{Frame, FrameView};
use crate::parse::{next_number, next_raw, next_text, rest_after, Parse, ParseError};
use crate::trusted::{bytes_from_vec, bytes_seq};
use bytes::Bytes;
use std::time::Duration;
use vstd::prelude::*;
use vstd::utf8::encode_utf8;

verus! {

/// Writes a value for a key, in place of whatever the key had, with or
/// without a time to live. The answer is `OK`.
#[derive(Debug)]
pub struct SetCmd {
    key: String,
    value: Bytes,
    expire: Option<Duration>,
}

/// The value of a [`SetCmd`].
pub struct SetView {
    /// The key to write.
    pub key: Seq<char>,
    /// The value to write.
    pub value: Seq<u8>,
    /// The time to live in milliseconds, where the entry is to expire.
    pub expire: Option<nat>,
}

impl View for SetCmd {
    type V = SetView;

    closed spec fn view(&self) -> SetView {
        SetView { key: self.key@, value: bytes_seq(self.value), expire: ttl_millis(self.expire) }
    }
}

/// The bytes of the word `set`.
pub open spec fn word_set() -> Seq<u8> {
    seq![115u8, 101u8, 116u8]
}

/// The bytes of the word `EX`.
pub open spec fn word_ex() -> Seq<u8> {
    seq![69u8, 88u8]
}

/// The bytes of the word `PX`.
pub open spec fn word_px() -> Seq<u8> {
    seq![80u8, 88u8]
}

/// The bytes of the word `px`.
pub open spec fn word_px_lower() -> Seq<u8> {
    seq![112u8, 120u8]
}

/// `name` is the option `EX` of `SET`, in any case of the letters.
pub open spec fn is_ex(name: Seq<char>) -> bool {
    same_word(encode_utf8(name), word_ex())
}

/// `name` is the option `PX` of `SET`, in any case of the letters.
pub open spec fn is_px(name: Seq<char>) -> bool {
    same_word(encode_utf8(name), word_px())
}

/// The time to live in milliseconds that the number `n` stands for behind
/// the option `name`: seconds behind `EX`, milliseconds behind `PX`.
pub open spec fn expire_millis(name: Seq<char>, n: i64) -> nat {
    if is_ex(name) {
        (n * 1000) as nat
    } else {
        n as nat
    }
}

/// What the arguments behind the value of a `SET` say of the time to live:
/// none where nothing follows, so many milliseconds where an option and a
/// number that is not negative follow.
pub open spec fn parse_expire(args: Seq<FrameView>) -> Result<Option<nat>, ParseError> {
    match next_text(args) {
        Err(ParseError::EndOfStream) => Ok(None),
        Err(e) => Err(e),
        Ok(name) => if !is_ex(name) && !is_px(name) {
            Err(ParseError::UnsupportedSetOption)
        } else {
            match next_number(rest_after(args)) {
                Err(e) => Err(e),
                Ok(n) => if n < 0 {
                    Err(ParseError::NegativeExpiration)
                } else {
                    Ok(Some(expire_millis(name, n)))
                },
            }
        },
    }
}

/// The arguments that are left once the time to live was read.
pub open spec fn expire_rest(args: Seq<FrameView>) -> Seq<FrameView> {
    match next_text(args) {
        Err(_) => rest_after(args),
        Ok(name) => if is_ex(name) || is_px(name) {
            rest_after(rest_after(args))
        } else {
            rest_after(args)
        },
    }
}

/// What the arguments behind the name `SET` say.
pub open spec fn parse_set(args: Seq<FrameView>) -> Result<SetView, ParseError> {
    match next_text(args) {
        Err(e) => Err(e),
        Ok(key) => match next_raw(rest_after(args)) {
            Err(e) => Err(e),
            Ok(value) => match parse_expire(rest_after(rest_after(args))) {
                Err(e) => Err(e),
                Ok(expire) => Ok(SetView { key, value, expire }),
            },
        },
    }
}

/// The arguments that are left once a `SET` was read.
pub open spec fn set_rest(args: Seq<FrameView>) -> Seq<FrameView> {
    if next_text(args) is Err {
        rest_after(args)
    } else if next_raw(rest_after(args)) is Err {
        rest_after(rest_after(args))
    } else {
        expire_rest(rest_after(rest_after(args)))
    }
}

/// A time to live in milliseconds as the wire carries it: cut to the
/// largest number that an integer frame holds.
pub open spec fn wire_millis(ms: nat) -> i64 {
    if ms > i64::MAX {
        i64::MAX
    } else {
        ms as i64
    }
}

/// The frame that asks a server for `cmd`. A time to live always goes out
/// in milliseconds.
pub open spec fn set_request(cmd: SetView) -> FrameView {
    let head = seq![
        FrameView::Bulk(word_set()),
        FrameView::Bulk(encode_utf8(cmd.key)),
        FrameView::Bulk(cmd.value),
    ];
    match cmd.expire {
        None => FrameView::Array(head),
        Some(ms) => FrameView::Array(
            head.push(FrameView::Bulk(word_px_lower())).push(FrameView::Integer(wire_millis(ms))),
        ),
    }
}

/// The answer to every `SET`.
pub open spec fn set_reply() -> FrameView {
    FrameView::Simple("OK"@)
}

impl SetCmd {
    /// The time to live as the command holds it, where the entry is to
    /// expire: the span itself, of which the view keeps the whole
    /// milliseconds.
    pub closed spec fn expire_given(&self) -> Option<Duration> {
        self.expire
    }

    /// A command that writes `value` for `key`, to expire after `expire`
    /// where one is given. The command holds the three as they are given.
    pub fn new(key: &str, value: Bytes, expire: Option<Duration>) -> (cmd: SetCmd)
        ensures
            cmd@ == (SetView {
                key: key@,
                value: bytes_seq(value),
                expire: ttl_millis(expire),
            }),
            cmd.expire_given() == expire,
    {
        SetCmd { key: key.to_owned(), value, expire }
    }

    /// The key to write.
    pub fn key(&self) -> (key: &str)
        ensures
            key@ == self@.key,
    {
        self.key.as_str()
    }

    /// The value to write.
    pub fn value(&self) -> (value: &Bytes)
        ensures
            bytes_seq(*value) == self@.value,
    {
        &self.value
    }

    /// The time to live, where the entry is to expire.
    pub fn expire(&self) -> (expire: Option<Duration>)
        ensures
            expire == self.expire_given(),
            ttl_millis(expire) == self@.expire,
    {
        self.expire
    }

    /// Reads the time to live from a cursor that stands behind the value.
    fn parse_expire_from(parse: &mut Parse) -> (r: Result<Option<Duration>, ParseError>)
        ensures
            final(parse)@ == expire_rest(old(parse)@),
            match parse_expire(old(parse)@) {
                Ok(expire) => r is Ok && ttl_millis(r->Ok_0) == expire,
                Err(e) => r is Err && r->Err_0 == e,
            },
    {
        let name = match parse.next_string() {
            Err(ParseError::EndOfStream) => {
                return Ok(None);
            },
            Err(e) => {
                return Err(e);
            },
            Ok(name) => name,
        };
        let ex: [u8; 2] = [69u8, 88u8];
        let px: [u8; 2] = [80u8, 88u8];
        assert(ex@ =~= word_ex());
        assert(px@ =~= word_px());
        let seconds: bool = if matches_word(name.as_str().as_bytes(), ex.as_slice()) {
            true
        } else if matches_word(name.as_str().as_bytes(), px.as_slice()) {
            false
        } else {
            return Err(ParseError::UnsupportedSetOption);
        };
        let n: i64 = match parse.next_int() {
            Err(e) => {
                return Err(e);
            },
            Ok(n) => n,
        };
        if n < 0 {
            return Err(ParseError::NegativeExpiration);
        }
        if seconds {
            Ok(Some(Duration::from_secs(n as u64)))
        } else {
            Ok(Some(Duration::from_millis(n as u64)))
        }
    }

    /// Reads the command's arguments from a cursor that stands behind the
    /// command's name: the key, the value, and the time to live where one
    /// follows.
    pub fn parse_frames(parse: &mut Parse) -> (r: Result<SetCmd, ParseError>)
        ensures
            final(parse)@ == set_rest(old(parse)@),
            match parse_set(old(parse)@) {
                Ok(cmd) => r is Ok && r->Ok_0@ == cmd,
                Err(e) => r is Err && r->Err_0 == e,
            },
    {
        let key = match parse.next_string() {
            Err(e) => {
                return Err(e);
            },
            Ok(key) => key,
        };
        let value = match parse.next_bytes() {
            Err(e) => {
                return Err(e);
            },
            Ok(value) => value,
        };
        let expire = match SetCmd::parse_expire_from(parse) {
            Err(e) => {
                return Err(e);
            },
            Ok(expire) => expire,
        };
        Ok(SetCmd { key, value, expire })
    }

    /// Writes the key in `db` at the instant `now` and gives the answer for
    /// the client, and whether the entry expires before every entry that
    /// the store held.
    pub fn apply(self, db: &mut Db, now: u64) -> (done: (Frame, bool))
        requires
            old(db).wf(),
        ensures
            final(db).wf(),
            final(db)@ == stored(old(db)@, self@.key, self@.value, deadline(now, self@.expire)),
            done.0@ == set_reply(),
            done.1 == expires_first(old(db)@, deadline(now, self@.expire)),
    {
        let notify = db.set(self.key, self.value, self.expire, now);
        (Frame::Simple("OK".to_owned()), notify)
    }

    /// The frame that asks a server for this command.
    pub fn into_frame(self) -> (frame: Frame)
        ensures
            frame@ == set_request(self@),
    {
        let mut frame = Frame::array();
        let name: Vec<u8> = vec![115u8, 101u8, 116u8];
        assert(name@ =~= word_set());
        frame.push_bulk(bytes_from_vec(name));
        frame.push_bulk(bytes_from_vec(text_bytes(self.key.as_str())));
        frame.push_bulk(self.value);
        match self.expire {
            None => {
                assert(frame@->Array_0 =~= set_request(self@)->Array_0);
            },
            Some(d) => {
                let px: Vec<u8> = vec![112u8, 120u8];
                assert(px@ =~= word_px_lower());
                frame.push_bulk(bytes_from_vec(px));
                let ms: u128 = d.as_millis();
                let n: i64 = if ms > 9223372036854775807u128 {
                    i64::MAX
                } else {
                    ms as i64
                };
                frame.push_int(n);
                assert(frame@->Array_0 =~= set_request(self@)->Array_0);
            },
        }
        frame
    }
}

} // verus!
