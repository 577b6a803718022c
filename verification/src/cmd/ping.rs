//! `PING [message]`: asks whether the server is there.

use crate::frame::{Frame, FrameView};
use crate::parse::{next_raw, rest_after, Parse, ParseError};
use crate::trusted::{bytes_from_vec, bytes_seq};
use bytes::Bytes;
use vstd::prelude::*;

verus! {

/// Asks the server for a sign of life. The answer is `PONG`, or the
/// message that came with the command.
#[derive(Debug)]
pub struct Ping {
    msg: Option<Bytes>,
}

/// The value of a [`Ping`].
pub struct PingView {
    /// The message to send back, where there is one.
    pub msg: Option<Seq<u8>>,
}

/// The bytes that an optional `Bytes` holds.
pub open spec fn opt_bytes_seq(b: Option<Bytes>) -> Option<Seq<u8>> {
    match b {
        None => None,
        Some(b) => Some(bytes_seq(b)),
    }
}

impl View for Ping {
    type V = PingView;

    closed spec fn view(&self) -> PingView {
        PingView { msg: opt_bytes_seq(self.msg) }
    }
}

/// The bytes of the word `ping`.
pub open spec fn word_ping() -> Seq<u8> {
    seq![112u8, 105u8, 110u8, 103u8]
}

/// What the arguments behind the name `PING` say: a message, or none where
/// nothing follows.
pub open spec fn parse_ping(args: Seq<FrameView>) -> Result<PingView, ParseError> {
    match next_raw(args) {
        Ok(msg) => Ok(PingView { msg: Some(msg) }),
        Err(ParseError::EndOfStream) => Ok(PingView { msg: None }),
        Err(e) => Err(e),
    }
}

/// The answer to `cmd`: its message unchanged, as a bulk string, or `PONG`
/// where it has none.
pub open spec fn ping_reply(cmd: PingView) -> FrameView {
    match cmd.msg {
        None => FrameView::Simple("PONG"@),
        Some(msg) => FrameView::Bulk(msg),
    }
}

/// The frame that asks a server for `cmd`.
pub open spec fn ping_request(cmd: PingView) -> FrameView {
    match cmd.msg {
        None => FrameView::Array(seq![FrameView::Bulk(word_ping())]),
        Some(msg) => FrameView::Array(seq![FrameView::Bulk(word_ping()), FrameView::Bulk(msg)]),
    }
}

impl Ping {
    /// A command that asks for `msg` back, or for `PONG` without one.
    pub fn new(msg: Option<Bytes>) -> (cmd: Ping)
        ensures
            cmd@.msg == opt_bytes_seq(msg),
    {
        Ping { msg }
    }

    /// Reads the command's argument, if there is one, from a cursor that
    /// stands behind the command's name.
    pub fn parse_frames(parse: &mut Parse) -> (r: Result<Ping, ParseError>)
        ensures
            final(parse)@ == rest_after(old(parse)@),
            match parse_ping(old(parse)@) {
                Ok(cmd) => r is Ok && r->Ok_0@ == cmd,
                Err(e) => r is Err && r->Err_0 == e,
            },
    {
        match parse.next_bytes() {
            Ok(msg) => Ok(Ping { msg: Some(msg) }),
            Err(ParseError::EndOfStream) => Ok(Ping { msg: None }),
            Err(e) => Err(e),
        }
    }

    /// The answer for the client. The store plays no part in it.
    pub fn apply(self) -> (response: Frame)
        ensures
            response@ == ping_reply(self@),
    {
        match self.msg {
            None => Frame::Simple("PONG".to_owned()),
            Some(msg) => Frame::Bulk(msg),
        }
    }

    /// The frame that asks a server for this command.
    pub fn into_frame(self) -> (frame: Frame)
        ensures
            frame@ == ping_request(self@),
    {
        let mut frame = Frame::array();
        let name: Vec<u8> = vec![112u8, 105u8, 110u8, 103u8];
        assert(name@ =~= word_ping());
        frame.push_bulk(bytes_from_vec(name));
        match self.msg {
            None => {
                assert(frame@->Array_0 =~= ping_request(self@)->Array_0);
            },
            Some(msg) => {
                frame.push_bulk(msg);
                assert(frame@->Array_0 =~= ping_request(self@)->Array_0);
            },
        }
        frame
    }
}

} // verus!
