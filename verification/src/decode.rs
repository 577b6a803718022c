//! Reading frames from bytes.

use crate::decimal::read_int;
use crate::frame::{views_of, Frame, FrameView};
use crate::text::copy_range;
use crate::trusted::{bytes_from_vec, string_from_utf8};
use crate::wire::{
    crlf_at, decode_at, decode_seq_at, decode_spec, head_at, line_end, Decoded, DecodedSeq, Head,
};
use vstd::prelude::*;
use vstd::utf8::encode_utf8_decode_utf8;

verus! {

/// Why a buffer gave no frame.
#[derive(Debug, Clone, Copy, PartialEq, Eq, Structural)]
pub enum DecodeError {
    /// The buffer does not yet hold a whole frame: read more and try again.
    Incomplete,
    /// The bytes are no frame, whatever may follow them.
    Invalid,
}

/// The first line of a frame, read.
pub enum FrameHead {
    /// A whole frame that is no array, and the number of bytes it takes.
    Leaf(Frame, usize),
    /// An array of so many frames, which follow a header of so many bytes.
    Array(u64, usize),
}

/// The result `r` of reading a head says what `h` says.
pub open spec fn head_agrees(r: Result<FrameHead, DecodeError>, h: Head) -> bool {
    match h {
        Head::Incomplete => r matches Err(e) && e == DecodeError::Incomplete,
        Head::Invalid => r matches Err(e) && e == DecodeError::Invalid,
        Head::Leaf(f, used) => r matches Ok(FrameHead::Leaf(frame, n)) && frame@ == f && n == used,
        Head::Array(count, used) => r matches Ok(FrameHead::Array(c, n)) && c == count && n
            == used,
    }
}

/// The result `r` of decoding says what `d` says.
pub open spec fn decode_agrees(r: Result<(Frame, usize), DecodeError>, d: Decoded) -> bool {
    match d {
        Decoded::Incomplete => r matches Err(e) && e == DecodeError::Incomplete,
        Decoded::Invalid => r matches Err(e) && e == DecodeError::Invalid,
        Decoded::Complete(f, used) => r matches Ok((frame, n)) && frame@ == f && n == used,
    }
}

/// What `line_end` gives is the first line terminator from `from` on, and no
/// terminator stands there where it gives none.
pub proof fn lemma_line_end(buf: Seq<u8>, from: int)
    requires
        0 <= from,
    ensures
        match line_end(buf, from) {
            Some(e) => from <= e && crlf_at(buf, e) && forall|j: int|
                from <= j < e ==> !crlf_at(buf, j),
            None => forall|j: int| from <= j ==> !crlf_at(buf, j),
        },
    decreases buf.len() - from,
{
    if from + 1 >= buf.len() {
    } else if crlf_at(buf, from) {
    } else {
        lemma_line_end(buf, from + 1);
    }
}

/// The first line terminator from `from` on is what `line_end` gives.
pub proof fn lemma_line_end_is(buf: Seq<u8>, from: int, e: int)
    requires
        0 <= from <= e,
        crlf_at(buf, e),
        forall|j: int| from <= j < e ==> !crlf_at(buf, j),
    ensures
        line_end(buf, from) == Some(e),
{
    lemma_line_end(buf, from);
}

/// Where no line terminator stands from `from` on, `line_end` gives none.
pub proof fn lemma_line_end_none(buf: Seq<u8>, from: int)
    requires
        0 <= from,
        forall|j: int| from <= j ==> !crlf_at(buf, j),
    ensures
        line_end(buf, from) is None,
{
    lemma_line_end(buf, from);
}

/// Once a run of frames fails to decode, a longer run fails the same way.
pub proof fn lemma_seq_failure_persists(buf: Seq<u8>, pos: nat, k: nat, n: nat)
    requires
        k <= n,
        !(decode_seq_at(buf, pos, k) is Complete),
    ensures
        decode_seq_at(buf, pos, n) == decode_seq_at(buf, pos, k),
    decreases n,
{
    if k < n {
        lemma_seq_failure_persists(buf, pos, k, (n - 1) as nat);
    }
}

/// The index of the first line terminator of `buf` at or after `from`.
pub fn find_line_end(buf: &[u8], from: usize) -> (r: Option<usize>)
    requires
        from <= buf@.len(),
    ensures
        match line_end(buf@, from as int) {
            Some(e) => r == Some(e as usize) && from <= e && e + 2 <= buf@.len(),
            None => r is None,
        },
{
    let mut i: usize = from;
    while i < buf.len() && i + 1 < buf.len()
        invariant
            from <= i <= buf@.len(),
            forall|j: int| from <= j < i ==> !crlf_at(buf@, j),
        decreases buf@.len() - i,
    {
        if buf[i] == 13u8 && buf[i + 1] == 10u8 {
            proof {
                lemma_line_end_is(buf@, from as int, i as int);
            }
            return Some(i);
        }
        i = i + 1;
    }
    proof {
        lemma_line_end_none(buf@, from as int);
    }
    None
}

/// Reads the head of the frame that starts at index `pos` of `buf`.
pub fn read_head(buf: &[u8], pos: usize) -> (r: Result<FrameHead, DecodeError>)
    requires
        pos <= buf@.len(),
    ensures
        head_agrees(r, head_at(buf@, pos as nat)),
        r matches Ok(FrameHead::Leaf(_, n)) ==> n >= 3 && pos + n <= buf@.len(),
        r matches Ok(FrameHead::Array(_, n)) ==> n >= 3 && pos + n <= buf@.len(),
{
    if pos >= buf.len() {
        return Err(DecodeError::Incomplete);
    }
    let tag: u8 = buf[pos];
    if tag != 43u8 && tag != 45u8 && tag != 58u8 && tag != 36u8 && tag != 42u8 {
        return Err(DecodeError::Invalid);
    }
    let end: usize = match find_line_end(buf, pos + 1) {
        None => {
            return Err(DecodeError::Incomplete);
        },
        Some(e) => e,
    };
    let ghost line = buf@.subrange(pos as int + 1, end as int);
    let used: usize = end + 2 - pos;
    if tag == 43u8 || tag == 45u8 {
        let text = match string_from_utf8(copy_range(buf, pos + 1, end)) {
            None => {
                return Err(DecodeError::Invalid);
            },
            Some(s) => s,
        };
        proof {
            encode_utf8_decode_utf8(text@);
        }
        if tag == 43u8 {
            return Ok(FrameHead::Leaf(Frame::Simple(text), used));
        } else {
            return Ok(FrameHead::Leaf(Frame::Error(text), used));
        }
    }
    let value: i128 = match read_int(buf, pos + 1, end) {
        None => {
            return Err(DecodeError::Invalid);
        },
        Some(v) => v,
    };
    if tag == 58u8 {
        if value < -9223372036854775808i128 || value > 9223372036854775807i128 {
            return Err(DecodeError::Invalid);
        }
        return Ok(FrameHead::Leaf(Frame::Integer(value as i64), used));
    }
    if tag == 36u8 {
        if value == -1 {
            return Ok(FrameHead::Leaf(Frame::Null, used));
        }
        if value < 0 {
            return Err(DecodeError::Invalid);
        }
        let avail: usize = buf.len() - (pos + used);
        if (avail as u128) < (value as u128) + 2 {
            return Err(DecodeError::Incomplete);
        }
        let len: usize = value as usize;
        let start: usize = pos + used;
        if !(buf[start + len] == 13u8 && buf[start + len + 1] == 10u8) {
            return Err(DecodeError::Invalid);
        }
        let data = bytes_from_vec(copy_range(buf, start, start + len));
        return Ok(FrameHead::Leaf(Frame::Bulk(data), used + len + 2));
    }
    if value < 0 {
        return Err(DecodeError::Invalid);
    }
    Ok(FrameHead::Array(value as u64, used))
}

/// Decodes the frame that starts at index `pos` of `buf`: the frame and the
/// number of bytes it takes.
pub fn decode_from(buf: &[u8], pos: usize) -> (r: Result<(Frame, usize), DecodeError>)
    requires
        pos <= buf@.len(),
    ensures
        decode_agrees(r, decode_at(buf@, pos as nat)),
        r matches Ok((_, n)) ==> n >= 3 && pos + n <= buf@.len(),
    decreases buf@.len() - pos,
{
    let total: usize = buf.len();
    let head = read_head(buf, pos);
    let (count, used): (u64, usize) = match head {
        Err(e) => {
            return Err(e);
        },
        Ok(FrameHead::Leaf(frame, n)) => {
            return Ok((frame, n));
        },
        Ok(FrameHead::Array(count, used)) => (count, used),
    };
    assert(head_at(buf@, pos as nat) == Head::Array(count as nat, used as nat));
    let start: usize = pos + used;
    let mut items: Vec<Frame> = Vec::new();
    let mut len: usize = 0;
    let mut i: u64 = 0;
    assert(views_of(items@) =~= Seq::<FrameView>::empty());
    while i < count
        invariant
            i <= count,
            pos < start,
            start == pos + used,
            total == buf@.len(),
            start + len <= total,
            head_at(buf@, pos as nat) == Head::Array(count as nat, used as nat),
            decode_seq_at(buf@, start as nat, i as nat) == DecodedSeq::Complete(
                views_of(items@),
                len as nat,
            ),
        decreases count - i,
    {
        match decode_from(buf, start + len) {
            Err(e) => {
                proof {
                    assert(!(decode_seq_at(buf@, start as nat, (i + 1) as nat) is Complete));
                    lemma_seq_failure_persists(buf@, start as nat, (i + 1) as nat, count as nat);
                }
                return Err(e);
            },
            Ok((frame, n)) => {
                assert(views_of(items@.push(frame)) =~= views_of(items@).push(frame@));
                items.push(frame);
                len = len + n;
                i = i + 1;
            },
        }
    }
    Ok((Frame::Array(items), used + len))
}

/// Decodes the first frame of `buf`: the frame and the number of bytes it
/// takes. `Incomplete` where `buf` holds the start of a frame but not all of
/// it, `Invalid` where its bytes are no frame.
pub fn decode(buf: &[u8]) -> (r: Result<(Frame, usize), DecodeError>)
    ensures
        decode_agrees(r, decode_spec(buf@)),
        r matches Ok((_, n)) ==> n <= buf@.len(),
{
    decode_from(buf, 0)
}

} // verus!
