//! Writing frames as bytes.

use crate::decimal::{digits, push_decimal, push_digits};
use crate::frame::{views_of, Frame};
use crate::trusted::bytes_as_slice;
use crate::wire::{crlf, encode_all, encode_spec};
use vstd::prelude::*;

verus! {

/// Appends the bytes of `src` to `dst`.
pub fn push_bytes(dst: &mut Vec<u8>, src: &[u8])
    ensures
        final(dst)@ == old(dst)@ + src@,
{
    dst.extend_from_slice(src);
    assert(dst@ =~= old(dst)@ + src@);
}

/// Appends a line terminator to `dst`.
pub fn push_crlf(dst: &mut Vec<u8>)
    ensures
        final(dst)@ == old(dst)@ + crlf(),
{
    dst.push(13u8);
    dst.push(10u8);
    assert(dst@ =~= old(dst)@ + crlf());
}

/// Appends the wire form of `frame` to `dst`.
pub fn encode_into(frame: &Frame, dst: &mut Vec<u8>)
    ensures
        final(dst)@ == old(dst)@ + encode_spec(frame@),
    decreases frame,
{
    match frame {
        Frame::Simple(s) => {
            dst.push(43u8);
            push_bytes(dst, s.as_str().as_bytes());
            push_crlf(dst);
            assert(dst@ =~= old(dst)@ + encode_spec(frame@));
        },
        Frame::Error(s) => {
            dst.push(45u8);
            push_bytes(dst, s.as_str().as_bytes());
            push_crlf(dst);
            assert(dst@ =~= old(dst)@ + encode_spec(frame@));
        },
        Frame::Integer(n) => {
            dst.push(58u8);
            push_decimal(dst, *n);
            push_crlf(dst);
            assert(dst@ =~= old(dst)@ + encode_spec(frame@));
        },
        Frame::Null => {
            dst.push(36u8);
            dst.push(45u8);
            dst.push(49u8);
            push_crlf(dst);
            assert(dst@ =~= old(dst)@ + encode_spec(frame@));
        },
        Frame::Bulk(b) => {
            let data = bytes_as_slice(b);
            dst.push(36u8);
            push_digits(dst, data.len() as u64);
            push_crlf(dst);
            push_bytes(dst, data);
            push_crlf(dst);
            assert(dst@ =~= old(dst)@ + encode_spec(frame@));
        },
        Frame::Array(items) => {
            dst.push(42u8);
            push_digits(dst, items.len() as u64);
            push_crlf(dst);
            let ghost head = dst@;
            let ghost fs = views_of(items@);
            assert(head =~= old(dst)@ + (seq![42u8] + digits(fs.len()) + crlf()));
            let mut i: usize = 0;
            while i < items.len()
                invariant
                    i <= items.len(),
                    fs == views_of(items@),
                    *frame == Frame::Array(*items),
                    dst@ == head + encode_all(fs.take(i as int)),
                decreases items.len() - i,
            {
                proof {
                    let t = fs.take(i as int + 1);
                    assert(t.drop_last() =~= fs.take(i as int));
                    assert(t.last() == items@[i as int]@);
                    assert(decreases_to!(frame => frame->Array_0@[i as int]));
                }
                encode_into(&items[i], dst);
                i = i + 1;
                assert(dst@ =~= head + encode_all(fs.take(i as int)));
            }
            assert(fs.take(items.len() as int) =~= fs);
            assert(dst@ =~= old(dst)@ + encode_spec(frame@));
        },
    }
}

/// The bytes of `frame` on the wire.
pub fn encode(frame: &Frame) -> (out: Vec<u8>)
    ensures
        out@ == encode_spec(frame@),
{
    let mut out: Vec<u8> = Vec::new();
    encode_into(frame, &mut out);
    assert(out@ =~= encode_spec(frame@));
    out
}

} // verus!
