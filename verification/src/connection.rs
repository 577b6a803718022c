//! The receiving side of a connection: bytes come in as the stream hands
//! them over, and leave as whole frames.

use crate::decode::{decode, DecodeError};
use crate::encode::push_bytes;
use crate::frame::{Frame, FrameView};
use crate::wire::{decode_spec, Decoded};
use vstd::prelude::*;

verus! {

/// Why a connection cannot go on.
#[derive(Debug, Clone, Copy, PartialEq, Eq, Structural)]
pub enum ConnectionError {
    /// The bytes received are no frame.
    InvalidFrame,
    /// The stream ended in the middle of a frame.
    ResetByPeer,
}

impl ConnectionError {
    /// The text that tells of this error.
    pub fn message(&self) -> (text: String)
        ensures
            text@ == self.message_spec(),
    {
        match self {
            ConnectionError::InvalidFrame => "protocol error; invalid frame format".to_owned(),
            ConnectionError::ResetByPeer => "connection reset by peer".to_owned(),
        }
    }

    /// The text that tells of this error.
    pub open spec fn message_spec(&self) -> Seq<char> {
        match self {
            ConnectionError::InvalidFrame => "protocol error; invalid frame format"@,
            ConnectionError::ResetByPeer => "connection reset by peer"@,
        }
    }
}

/// The bytes that were received and not yet taken as a frame.
pub struct ReadBuffer {
    buf: Vec<u8>,
}

impl View for ReadBuffer {
    type V = Seq<u8>;

    closed spec fn view(&self) -> Seq<u8> {
        self.buf@
    }
}

/// What taking a frame from a buffer that holds `buf` gives: the first
/// frame where the buffer holds a whole one, nothing where it holds the
/// start of one, an error where its bytes are no frame.
pub open spec fn taken(buf: Seq<u8>) -> Result<Option<FrameView>, ConnectionError> {
    match decode_spec(buf) {
        Decoded::Complete(f, _) => Ok(Some(f)),
        Decoded::Incomplete => Ok(None),
        Decoded::Invalid => Err(ConnectionError::InvalidFrame),
    }
}

/// What a buffer that held `buf` holds once a frame was asked of it: the
/// bytes behind the first frame where it held a whole one, else all of
/// them.
pub open spec fn left_over(buf: Seq<u8>) -> Seq<u8> {
    match decode_spec(buf) {
        Decoded::Complete(_, used) => buf.skip(used as int),
        _ => buf,
    }
}

/// What the end of the stream means for a buffer that holds `buf`: a clean
/// close where nothing is left in it, a reset where a frame was under way.
pub open spec fn at_end_of_stream(buf: Seq<u8>) -> Result<(), ConnectionError> {
    if buf.len() == 0 {
        Ok(())
    } else {
        Err(ConnectionError::ResetByPeer)
    }
}

impl ReadBuffer {
    /// A buffer without bytes.
    pub fn new() -> (buffer: ReadBuffer)
        ensures
            buffer@ == Seq::<u8>::empty(),
    {
        ReadBuffer { buf: Vec::new() }
    }

    /// The number of bytes that wait in the buffer.
    pub fn len(&self) -> (n: usize)
        ensures
            n == self@.len(),
    {
        self.buf.len()
    }

    /// Takes in the bytes that the stream handed over.
    pub fn feed(&mut self, chunk: &[u8])
        ensures
            final(self)@ == old(self)@ + chunk@,
    {
        push_bytes(&mut self.buf, chunk);
    }

    /// Takes the first frame out of the buffer, where it holds a whole one.
    /// `Ok(None)` asks for more bytes; the buffer is then as it was, and so
    /// it is after an error.
    pub fn next_frame(&mut self) -> (r: Result<Option<Frame>, ConnectionError>)
        ensures
            final(self)@ == left_over(old(self)@),
            match taken(old(self)@) {
                Ok(Some(f)) => r is Ok && r->Ok_0 is Some && r->Ok_0->Some_0@ == f,
                Ok(None) => r is Ok && r->Ok_0 is None,
                Err(e) => r is Err && r->Err_0 == e,
            },
    {
        match decode(self.buf.as_slice()) {
            Ok((frame, used)) => {
                let rest = self.buf.split_off(used);
                self.buf = rest;
                assert(self.buf@ =~= old(self)@.skip(used as int));
                Ok(Some(frame))
            },
            Err(DecodeError::Incomplete) => Ok(None),
            Err(DecodeError::Invalid) => Err(ConnectionError::InvalidFrame),
        }
    }

    /// Says what the end of the stream means: a clean close where the
    /// buffer is empty, a reset by the peer where a frame was under way.
    pub fn end_of_stream(&self) -> (r: Result<(), ConnectionError>)
        ensures
            r == at_end_of_stream(self@),
    {
        if self.buf.len() == 0 {
            Ok(())
        } else {
            Err(ConnectionError::ResetByPeer)
        }
    }
}

} // verus!
