//! The wire format, stated over byte sequences: what the bytes of a frame
//! are, and what a buffer of bytes decodes to.

use crate::decimal::{decimal, digits, parse_int};
use crate::frame::FrameView;
use vstd::prelude::*;
use vstd::utf8::{decode_utf8, encode_utf8, valid_utf8};

verus! {

/// The line terminator: carriage return, line feed.
pub open spec fn crlf() -> Seq<u8> {
    seq![13u8, 10u8]
}

/// The bytes of a frame on the wire.
pub open spec fn encode_spec(f: FrameView) -> Seq<u8>
    decreases f, 0int,
{
    match f {
        FrameView::Simple(s) => seq![43u8] + encode_utf8(s) + crlf(),
        FrameView::Error(s) => seq![45u8] + encode_utf8(s) + crlf(),
        FrameView::Integer(n) => seq![58u8] + decimal(n as int) + crlf(),
        FrameView::Null => seq![36u8, 45u8, 49u8, 13u8, 10u8],
        FrameView::Bulk(b) => seq![36u8] + digits(b.len()) + crlf() + b + crlf(),
        FrameView::Array(fs) => seq![42u8] + digits(fs.len()) + crlf() + encode_all(fs),
    }
}

/// The bytes of a run of frames, one after the other.
pub open spec fn encode_all(fs: Seq<FrameView>) -> Seq<u8>
    decreases fs, 1int,
{
    if fs.len() == 0 {
        Seq::<u8>::empty()
    } else {
        encode_all(fs.drop_last()) + encode_spec(fs.last())
    }
}

/// A line terminator stands at index `i` of `buf`.
pub open spec fn crlf_at(buf: Seq<u8>, i: int) -> bool {
    0 <= i && i + 1 < buf.len() && buf[i] == 13 && buf[i + 1] == 10
}

/// The index of the first line terminator of `buf` at or after `from`.
pub open spec fn line_end(buf: Seq<u8>, from: int) -> Option<int>
    decreases buf.len() - from,
{
    if from < 0 || from + 1 >= buf.len() {
        None
    } else if crlf_at(buf, from) {
        Some(from)
    } else {
        line_end(buf, from + 1)
    }
}

/// What the first line of a frame says.
pub enum Head {
    /// More bytes are needed to tell.
    Incomplete,
    /// The bytes are no frame.
    Invalid,
    /// A whole frame that is no array, and the number of bytes it takes.
    Leaf(FrameView, nat),
    /// An array of so many frames, which follow a header of so many bytes.
    Array(nat, nat),
}

/// What a buffer decodes to.
pub enum Decoded {
    /// A whole frame, and the number of bytes it takes.
    Complete(FrameView, nat),
    /// The buffer does not yet hold a whole frame.
    Incomplete,
    /// The bytes are no frame.
    Invalid,
}

/// What a buffer decodes to, as a run of frames.
pub enum DecodedSeq {
    Complete(Seq<FrameView>, nat),
    Incomplete,
    Invalid,
}

/// The head of the frame that starts at index `pos` of `buf`.
pub open spec fn head_at(buf: Seq<u8>, pos: nat) -> Head {
    if pos >= buf.len() {
        Head::Incomplete
    } else {
        let tag = buf[pos as int];
        if tag != 43 && tag != 45 && tag != 58 && tag != 36 && tag != 42 {
            Head::Invalid
        } else {
            match line_end(buf, pos as int + 1) {
                None => Head::Incomplete,
                Some(e) => {
                    let line = buf.subrange(pos as int + 1, e);
                    let used = (line.len() + 3) as nat;
                    if tag == 43 {
                        if valid_utf8(line) {
                            Head::Leaf(FrameView::Simple(decode_utf8(line)), used)
                        } else {
                            Head::Invalid
                        }
                    } else if tag == 45 {
                        if valid_utf8(line) {
                            Head::Leaf(FrameView::Error(decode_utf8(line)), used)
                        } else {
                            Head::Invalid
                        }
                    } else {
                        match parse_int(line) {
                            None => Head::Invalid,
                            Some(v) => if tag == 58 {
                                if i64::MIN <= v <= i64::MAX {
                                    Head::Leaf(FrameView::Integer(v as i64), used)
                                } else {
                                    Head::Invalid
                                }
                            } else if tag == 36 {
                                if v == -1 {
                                    Head::Leaf(FrameView::Null, used)
                                } else if v < 0 || v > u64::MAX {
                                    Head::Invalid
                                } else if buf.len() < pos + used + v + 2 {
                                    Head::Incomplete
                                } else if !crlf_at(buf, pos + used + v) {
                                    Head::Invalid
                                } else {
                                    Head::Leaf(
                                        FrameView::Bulk(
                                            buf.subrange((pos + used) as int, pos + used + v),
                                        ),
                                        (used + v + 2) as nat,
                                    )
                                }
                            } else {
                                if v < 0 || v > u64::MAX {
                                    Head::Invalid
                                } else {
                                    Head::Array(v as nat, used)
                                }
                            },
                        }
                    }
                },
            }
        }
    }
}

/// The number of bytes of `buf` from index `pos` on.
pub open spec fn remaining(buf: Seq<u8>, pos: nat) -> nat {
    if pos < buf.len() {
        (buf.len() - pos) as nat
    } else {
        0
    }
}

/// An array's header takes at least three bytes, and starts inside the
/// buffer.
pub proof fn lemma_head_array_advances(buf: Seq<u8>, pos: nat)
    ensures
        head_at(buf, pos) matches Head::Array(_, used) ==> used >= 3 && pos < buf.len(),
{
}

/// What the bytes of `buf` from index `pos` on decode to.
pub open spec fn decode_at(buf: Seq<u8>, pos: nat) -> Decoded
    decreases remaining(buf, pos), 0nat,
{
    match head_at(buf, pos) {
        Head::Incomplete => Decoded::Incomplete,
        Head::Invalid => Decoded::Invalid,
        Head::Leaf(f, used) => Decoded::Complete(f, used),
        Head::Array(n, used) => {
            proof {
                lemma_head_array_advances(buf, pos);
            }
            match decode_seq_at(buf, pos + used, n) {
                DecodedSeq::Incomplete => Decoded::Incomplete,
                DecodedSeq::Invalid => Decoded::Invalid,
                DecodedSeq::Complete(fs, len) => Decoded::Complete(
                    FrameView::Array(fs),
                    used + len,
                ),
            }
        },
    }
}

/// What the bytes of `buf` from index `pos` on decode to, read as `n`
/// frames in a row.
pub open spec fn decode_seq_at(buf: Seq<u8>, pos: nat, n: nat) -> DecodedSeq
    decreases remaining(buf, pos), n + 1,
{
    if n == 0 {
        DecodedSeq::Complete(Seq::empty(), 0)
    } else {
        match decode_seq_at(buf, pos, (n - 1) as nat) {
            DecodedSeq::Incomplete => DecodedSeq::Incomplete,
            DecodedSeq::Invalid => DecodedSeq::Invalid,
            DecodedSeq::Complete(fs, len) => match decode_at(buf, pos + len) {
                Decoded::Incomplete => DecodedSeq::Incomplete,
                Decoded::Invalid => DecodedSeq::Invalid,
                Decoded::Complete(f, used) => DecodedSeq::Complete(fs.push(f), len + used),
            },
        }
    }
}

/// What a buffer decodes to: its first frame and the bytes that frame
/// takes, or the reason why there is none.
pub open spec fn decode_spec(buf: Seq<u8>) -> Decoded {
    decode_at(buf, 0)
}

} // verus!
