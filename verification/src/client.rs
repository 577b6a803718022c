//! What a client makes of the frame that answers its request.

use crate::text::{same_text, text_bytes};
use crate::frame::{Frame, FrameView};
use crate::trusted::{bytes_from_vec, bytes_seq};
use bytes::Bytes;
use vstd::prelude::*;
use vstd::utf8::encode_utf8;

verus! {

/// Why an answer is not the result that was asked for.
#[derive(Debug, PartialEq, Eq)]
pub enum ResponseError {
    /// The server answered with an error frame; its text.
    Refused(String),
    /// The answer is a frame that the request cannot be answered by.
    Unexpected,
}

/// The value of a [`ResponseError`].
pub enum ResponseErrorView {
    Refused(Seq<char>),
    Unexpected,
}

impl View for ResponseError {
    type V = ResponseErrorView;

    open spec fn view(&self) -> ResponseErrorView {
        match self {
            ResponseError::Refused(text) => ResponseErrorView::Refused(text@),
            ResponseError::Unexpected => ResponseErrorView::Unexpected,
        }
    }
}

/// The error that a frame stands for where it is not the answer that was
/// hoped for.
pub open spec fn refusal(frame: FrameView) -> ResponseErrorView {
    match frame {
        FrameView::Error(text) => ResponseErrorView::Refused(text),
        _ => ResponseErrorView::Unexpected,
    }
}

/// What the answer to a `GET` says: the value, or none for null.
pub open spec fn get_result(frame: FrameView) -> Result<Option<Seq<u8>>, ResponseErrorView> {
    match frame {
        FrameView::Simple(text) => Ok(Some(encode_utf8(text))),
        FrameView::Bulk(value) => Ok(Some(value)),
        FrameView::Null => Ok(None),
        _ => Err(refusal(frame)),
    }
}

/// What the answer to a `SET` says: done, where it is `OK`.
pub open spec fn set_result(frame: FrameView) -> Result<(), ResponseErrorView> {
    match frame {
        FrameView::Simple(text) => if text == "OK"@ {
            Ok(())
        } else {
            Err(ResponseErrorView::Unexpected)
        },
        _ => Err(refusal(frame)),
    }
}

/// What the answer to a `PING` says: the bytes that came back.
pub open spec fn ping_result(frame: FrameView) -> Result<Seq<u8>, ResponseErrorView> {
    match frame {
        FrameView::Simple(text) => Ok(encode_utf8(text)),
        FrameView::Bulk(value) => Ok(value),
        _ => Err(refusal(frame)),
    }
}

/// The error that `frame` stands for where it is not the answer that was
/// hoped for.
fn refused(frame: Frame) -> (e: ResponseError)
    ensures
        e@ == refusal(frame@),
{
    match frame {
        Frame::Error(text) => ResponseError::Refused(text),
        _ => ResponseError::Unexpected,
    }
}

/// Reads the answer to a `GET`.
pub fn get_response(frame: Frame) -> (r: Result<Option<Bytes>, ResponseError>)
    ensures
        match get_result(frame@) {
            Ok(Some(value)) => r is Ok && r->Ok_0 is Some && bytes_seq(r->Ok_0->Some_0) == value,
            Ok(None) => r is Ok && r->Ok_0 is None,
            Err(e) => r is Err && r->Err_0@ == e,
        },
{
    match frame {
        Frame::Simple(text) => Ok(Some(bytes_from_vec(text_bytes(text.as_str())))),
        Frame::Bulk(value) => Ok(Some(value)),
        Frame::Null => Ok(None),
        other => Err(refused(other)),
    }
}

/// Reads the answer to a `SET`.
pub fn set_response(frame: Frame) -> (r: Result<(), ResponseError>)
    ensures
        match set_result(frame@) {
            Ok(_) => r is Ok,
            Err(e) => r is Err && r->Err_0@ == e,
        },
{
    match frame {
        Frame::Simple(text) => if same_text(text.as_str(), "OK") {
            Ok(())
        } else {
            Err(ResponseError::Unexpected)
        },
        other => Err(refused(other)),
    }
}

/// Reads the answer to a `PING`.
pub fn ping_response(frame: Frame) -> (r: Result<Bytes, ResponseError>)
    ensures
        match ping_result(frame@) {
            Ok(value) => r is Ok && bytes_seq(r->Ok_0) == value,
            Err(e) => r is Err && r->Err_0@ == e,
        },
{
    match frame {
        Frame::Simple(text) => Ok(bytes_from_vec(text_bytes(text.as_str()))),
        Frame::Bulk(value) => Ok(value),
        other => Err(refused(other)),
    }
}

} // verus!
