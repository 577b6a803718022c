//! A cursor over the elements of an array frame, from which a command
//! reads its arguments one by one.

use crate::decimal::{parse_int, read_int};
use crate::text::copy_range;
use crate::frame::{views_of, Frame, FrameView};
use crate::trusted::{bytes_as_slice, bytes_from_vec, bytes_seq, string_from_utf8};
use bytes::Bytes;
use vstd::prelude::*;
use vstd::utf8::{decode_utf8, encode_utf8, encode_utf8_decode_utf8, valid_utf8};

verus! {

/// Why a frame is not the command it was taken for.
#[derive(Debug, Clone, Copy, PartialEq, Eq, Structural)]
pub enum ParseError {
    /// An argument was asked for and none is left.
    EndOfStream,
    /// The frame is not an array.
    NotAnArray,
    /// The argument is neither a simple string nor a bulk string of text.
    NotAString,
    /// The argument is neither an integer nor the text of one.
    NotAnInteger,
    /// The argument is neither a bulk string nor a simple string.
    NotABulk,
    /// Arguments are left over after the last one the command takes.
    TrailingData,
    /// The array names no command that this server knows.
    UnknownCommand,
    /// `SET` was given an option other than `EX` and `PX`.
    UnsupportedSetOption,
    /// `SET` was given a negative time to live.
    NegativeExpiration,
}

impl ParseError {
    /// The text that tells a client of this error.
    pub fn message(&self) -> (text: String)
        ensures
            text@ == self.message_spec(),
    {
        match self {
            ParseError::EndOfStream => "protocol error; unexpected end of stream".to_owned(),
            ParseError::NotAnArray => "protocol error; expected array".to_owned(),
            ParseError::NotAString => "protocol error; expected string".to_owned(),
            ParseError::NotAnInteger => "protocol error; expected integer".to_owned(),
            ParseError::NotABulk => "protocol error; expected bulk string".to_owned(),
            ParseError::TrailingData => "protocol error; expected end of frame".to_owned(),
            ParseError::UnknownCommand => "unknown command".to_owned(),
            ParseError::UnsupportedSetOption => "unsupported SET option".to_owned(),
            ParseError::NegativeExpiration => "invalid expire time in SET".to_owned(),
        }
    }

    /// The text that tells a client of this error.
    pub open spec fn message_spec(&self) -> Seq<char> {
        match self {
            ParseError::EndOfStream => "protocol error; unexpected end of stream"@,
            ParseError::NotAnArray => "protocol error; expected array"@,
            ParseError::NotAString => "protocol error; expected string"@,
            ParseError::NotAnInteger => "protocol error; expected integer"@,
            ParseError::NotABulk => "protocol error; expected bulk string"@,
            ParseError::TrailingData => "protocol error; expected end of frame"@,
            ParseError::UnknownCommand => "unknown command"@,
            ParseError::UnsupportedSetOption => "unsupported SET option"@,
            ParseError::NegativeExpiration => "invalid expire time in SET"@,
        }
    }
}

/// The text that a frame stands for as an argument: that of a simple
/// string, or that of a bulk string whose bytes are UTF-8.
pub open spec fn text_of(f: FrameView) -> Option<Seq<char>> {
    match f {
        FrameView::Simple(s) => Some(s),
        FrameView::Bulk(b) => if valid_utf8(b) {
            Some(decode_utf8(b))
        } else {
            None
        },
        _ => None,
    }
}

/// The bytes that a frame stands for as an argument: those of a bulk
/// string, or the UTF-8 form of a simple string.
pub open spec fn bytes_of(f: FrameView) -> Option<Seq<u8>> {
    match f {
        FrameView::Simple(s) => Some(encode_utf8(s)),
        FrameView::Bulk(b) => Some(b),
        _ => None,
    }
}

/// The number that `line` denotes, where it denotes one that fits in 64
/// bits with a sign.
pub open spec fn parse_i64(line: Seq<u8>) -> Option<i64> {
    match parse_int(line) {
        Some(v) => if i64::MIN <= v <= i64::MAX {
            Some(v as i64)
        } else {
            None
        },
        None => None,
    }
}

/// The number that a frame stands for as an argument: that of an integer
/// frame, or the one that the text of a simple or bulk string denotes.
pub open spec fn int_of(f: FrameView) -> Option<i64> {
    match f {
        FrameView::Integer(n) => Some(n),
        FrameView::Simple(s) => parse_i64(encode_utf8(s)),
        FrameView::Bulk(b) => parse_i64(b),
        _ => None,
    }
}

/// The elements that are left once the next one was read.
pub open spec fn rest_after(args: Seq<FrameView>) -> Seq<FrameView> {
    if args.len() == 0 {
        args
    } else {
        args.drop_first()
    }
}

/// What reading the next element as text gives.
pub open spec fn next_text(args: Seq<FrameView>) -> Result<Seq<char>, ParseError> {
    if args.len() == 0 {
        Err(ParseError::EndOfStream)
    } else {
        match text_of(args[0]) {
            Some(t) => Ok(t),
            None => Err(ParseError::NotAString),
        }
    }
}

/// What reading the next element as raw bytes gives.
pub open spec fn next_raw(args: Seq<FrameView>) -> Result<Seq<u8>, ParseError> {
    if args.len() == 0 {
        Err(ParseError::EndOfStream)
    } else {
        match bytes_of(args[0]) {
            Some(b) => Ok(b),
            None => Err(ParseError::NotABulk),
        }
    }
}

/// What reading the next element as a number gives.
pub open spec fn next_number(args: Seq<FrameView>) -> Result<i64, ParseError> {
    if args.len() == 0 {
        Err(ParseError::EndOfStream)
    } else {
        match int_of(args[0]) {
            Some(n) => Ok(n),
            None => Err(ParseError::NotAnInteger),
        }
    }
}

/// Whether all elements were read: an error where some are left.
pub open spec fn at_end(args: Seq<FrameView>) -> Result<(), ParseError> {
    if args.len() == 0 {
        Ok(())
    } else {
        Err(ParseError::TrailingData)
    }
}

/// Reads all of `bytes` as a number that fits in 64 bits with a sign.
pub fn read_i64(bytes: &[u8]) -> (r: Option<i64>)
    ensures
        r == parse_i64(bytes@),
{
    assert(bytes@.subrange(0, bytes@.len() as int) =~= bytes@);
    match read_int(bytes, 0, bytes.len()) {
        None => None,
        Some(v) => if v < -9223372036854775808i128 || v > 9223372036854775807i128 {
            None
        } else {
            Some(v as i64)
        },
    }
}

/// A cursor over the elements of an array frame. It moves forward only.
pub struct Parse {
    parts: Vec<Frame>,
}

impl View for Parse {
    type V = Seq<FrameView>;

    /// The elements that are left, next one first.
    closed spec fn view(&self) -> Seq<FrameView> {
        views_of(self.parts@)
    }
}

impl Parse {
    /// A cursor at the first element of `frame`, which must be an array.
    pub fn new(frame: Frame) -> (r: Result<Parse, ParseError>)
        ensures
            match frame@ {
                FrameView::Array(fs) => r matches Ok(p) && p@ == fs,
                _ => r matches Err(e) && e == ParseError::NotAnArray,
            },
    {
        match frame {
            Frame::Array(parts) => Ok(Parse { parts }),
            _ => Err(ParseError::NotAnArray),
        }
    }

    /// The next element. The cursor moves past it.
    pub fn next(&mut self) -> (r: Result<Frame, ParseError>)
        ensures
            final(self)@ == rest_after(old(self)@),
            old(self)@.len() == 0 ==> r is Err && r->Err_0 == ParseError::EndOfStream,
            old(self)@.len() > 0 ==> r is Ok && r->Ok_0@ == old(self)@[0],
    {
        if self.parts.len() == 0 {
            return Err(ParseError::EndOfStream);
        }
        let frame = self.parts.remove(0);
        assert(views_of(self.parts@) =~= views_of(old(self).parts@).drop_first());
        Ok(frame)
    }

    /// The next element as text. The cursor moves past it, whatever it is.
    pub fn next_string(&mut self) -> (r: Result<String, ParseError>)
        ensures
            final(self)@ == rest_after(old(self)@),
            match next_text(old(self)@) {
                Ok(t) => r is Ok && r->Ok_0@ == t,
                Err(e) => r is Err && r->Err_0 == e,
            },
    {
        match self.next() {
            Err(e) => Err(e),
            Ok(Frame::Simple(s)) => Ok(s),
            Ok(Frame::Bulk(data)) => {
                let bytes = bytes_as_slice(&data);
                match string_from_utf8(copy_range(bytes, 0, bytes.len())) {
                    Some(s) => {
                        proof {
                            assert(bytes@.subrange(0, bytes@.len() as int) =~= bytes@);
                            encode_utf8_decode_utf8(s@);
                        }
                        Ok(s)
                    },
                    None => {
                        assert(bytes@.subrange(0, bytes@.len() as int) =~= bytes@);
                        Err(ParseError::NotAString)
                    },
                }
            },
            Ok(_) => Err(ParseError::NotAString),
        }
    }

    /// The next element as raw bytes. The cursor moves past it, whatever
    /// it is.
    pub fn next_bytes(&mut self) -> (r: Result<Bytes, ParseError>)
        ensures
            final(self)@ == rest_after(old(self)@),
            match next_raw(old(self)@) {
                Ok(b) => r is Ok && bytes_seq(r->Ok_0) == b,
                Err(e) => r is Err && r->Err_0 == e,
            },
    {
        match self.next() {
            Err(e) => Err(e),
            Ok(Frame::Simple(s)) => {
                let text = s.as_str().as_bytes();
                let copy = copy_range(text, 0, text.len());
                assert(text@.subrange(0, text@.len() as int) =~= text@);
                Ok(bytes_from_vec(copy))
            },
            Ok(Frame::Bulk(data)) => Ok(data),
            Ok(_) => Err(ParseError::NotABulk),
        }
    }

    /// The next element as a number. The cursor moves past it, whatever
    /// it is.
    pub fn next_int(&mut self) -> (r: Result<i64, ParseError>)
        ensures
            final(self)@ == rest_after(old(self)@),
            r == next_number(old(self)@),
    {
        match self.next() {
            Err(e) => Err(e),
            Ok(Frame::Integer(n)) => Ok(n),
            Ok(Frame::Simple(s)) => match read_i64(s.as_str().as_bytes()) {
                Some(n) => Ok(n),
                None => Err(ParseError::NotAnInteger),
            },
            Ok(Frame::Bulk(data)) => match read_i64(bytes_as_slice(&data)) {
                Some(n) => Ok(n),
                None => Err(ParseError::NotAnInteger),
            },
            Ok(_) => Err(ParseError::NotAnInteger),
        }
    }

    /// Succeeds where no element is left.
    pub fn finish(&self) -> (r: Result<(), ParseError>)
        ensures
            r == at_end(self@),
    {
        if self.parts.len() == 0 {
            Ok(())
        } else {
            Err(ParseError::TrailingData)
        }
    }
}

} // verus!
