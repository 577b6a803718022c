//! `GET key`: the value of a key.

use crate::db::{lookup, Db};
use crate::frame::{Frame, FrameView};
use crate::parse::{at_end, next_text, rest_after, Parse, ParseError};
use crate::text::text_bytes;
use crate::trusted::bytes_from_vec;
use vstd::prelude::*;
use vstd::utf8::encode_utf8;

verus! {

/// Asks for the value of a key. The answer is the value as a bulk string,
/// or null where the key has none.
#[derive(Debug)]
pub struct Get {
    key: String,
}

/// The value of a [`Get`].
pub struct GetView {
    /// The key to look up.
    pub key: Seq<char>,
}

impl View for Get {
    type V = GetView;

    closed spec fn view(&self) -> GetView {
        GetView { key: self.key@ }
    }
}

/// The bytes of the word `get`.
pub open spec fn word_get() -> Seq<u8> {
    seq![103u8, 101u8, 116u8]
}

/// What the arguments behind the name `GET` say: one key, and nothing
/// behind it.
pub open spec fn parse_get(args: Seq<FrameView>) -> Result<GetView, ParseError> {
    match next_text(args) {
        Err(e) => Err(e),
        Ok(key) => match at_end(rest_after(args)) {
            Err(e) => Err(e),
            Ok(_) => Ok(GetView { key }),
        },
    }
}

/// The answer to a `GET` whose lookup gave `found`.
pub open spec fn get_reply(found: Option<Seq<u8>>) -> FrameView {
    match found {
        Some(value) => FrameView::Bulk(value),
        None => FrameView::Null,
    }
}

/// The frame that asks a server for `cmd`.
pub open spec fn get_request(cmd: GetView) -> FrameView {
    FrameView::Array(seq![FrameView::Bulk(word_get()), FrameView::Bulk(encode_utf8(cmd.key))])
}

impl Get {
    /// A command that asks for the value of `key`.
    pub fn new(key: &str) -> (cmd: Get)
        ensures
            cmd@.key == key@,
    {
        Get { key: key.to_owned() }
    }

    /// The key to look up.
    pub fn key(&self) -> (key: &str)
        ensures
            key@ == self@.key,
    {
        self.key.as_str()
    }

    /// Reads the command's one argument, the key, from a cursor that stands
    /// behind the command's name, and refuses whatever follows the key. The
    /// cursor moves past the key and no further.
    pub fn parse_frames(parse: &mut Parse) -> (r: Result<Get, ParseError>)
        ensures
            final(parse)@ == rest_after(old(parse)@),
            match parse_get(old(parse)@) {
                Ok(cmd) => r is Ok && r->Ok_0@ == cmd,
                Err(e) => r is Err && r->Err_0 == e,
            },
    {
        let key = match parse.next_string() {
            Err(e) => {
                return Err(e);
            },
            Ok(key) => key,
        };
        match parse.finish() {
            Err(e) => Err(e),
            Ok(_) => Ok(Get { key }),
        }
    }

    /// Looks the key up in `db` at the instant `now` and gives the answer
    /// for the client.
    pub fn apply(self, db: &Db, now: u64) -> (response: Frame)
        requires
            db.wf(),
        ensures
            response@ == get_reply(lookup(db@, self@.key, now)),
    {
        match db.get(self.key.as_str(), now) {
            Some(value) => Frame::Bulk(value),
            None => Frame::Null,
        }
    }

    /// The frame that asks a server for this command.
    pub fn into_frame(self) -> (frame: Frame)
        ensures
            frame@ == get_request(self@),
    {
        let mut frame = Frame::array();
        let name: Vec<u8> = vec![103u8, 101u8, 116u8];
        assert(name@ =~= word_get());
        frame.push_bulk(bytes_from_vec(name));
        frame.push_bulk(bytes_from_vec(text_bytes(self.key.as_str())));
        assert(frame@->Array_0 =~= get_request(self@)->Array_0);
        frame
    }
}

} // verus!
