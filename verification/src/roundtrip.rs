//! Decoding undoes encoding, and a frame that has not wholly arrived is
//! reported as incomplete.

use crate::decimal::{decimal, digits, lemma_parse_decimal, parse_int};
use crate::decode::{lemma_line_end_is, lemma_line_end_none};
use crate::frame::FrameView;
use crate::text::lemma_utf8_no_line_feed;
use crate::wire::{
    crlf, crlf_at, decode_at, decode_seq_at, decode_spec, encode_all, encode_spec, line_end,
    Decoded, DecodedSeq,
};
use vstd::prelude::*;
use vstd::utf8::{encode_utf8, encode_utf8_decode_utf8, encode_utf8_valid_utf8};

verus! {

/// Where a line without a line feed byte and its terminator stand in `buf`
/// from index `from` on, the line ends where its terminator starts.
proof fn lemma_line_present(buf: Seq<u8>, from: int, payload: Seq<u8>)
    requires
        0 <= from,
        from + payload.len() + 2 <= buf.len(),
        buf.subrange(from, from + payload.len() + 2) == payload + crlf(),
        forall|i: int| 0 <= i < payload.len() ==> #[trigger] payload[i] != 10,
    ensures
        line_end(buf, from) == Some(from + payload.len()),
        buf.subrange(from, from + payload.len()) == payload,
{
    let whole = payload + crlf();
    let e = from + payload.len();
    assert forall|k: int| 0 <= k < whole.len() implies buf[from + k] == #[trigger] whole[k] by {
        assert(buf.subrange(from, from + payload.len() + 2)[k] == buf[from + k]);
    }
    assert(whole[payload.len() as int] == 13);
    assert(whole[payload.len() as int + 1] == 10);
    assert(crlf_at(buf, e));
    assert forall|j: int| from <= j < e implies !crlf_at(buf, j) by {
        let k = j + 1 - from;
        assert(buf[from + k] == whole[k]);
        if k < payload.len() {
            assert(whole[k] == payload[k]);
        }
    }
    lemma_line_end_is(buf, from, e);
    assert(buf.subrange(from, from + payload.len()) =~= payload) by {
        assert forall|k: int| 0 <= k < payload.len() implies buf[from + k] == payload[k] by {
            assert(buf[from + k] == whole[k]);
        }
    }
}

/// Where `buf` ends inside a line without a line feed byte or inside its
/// terminator, no line ends from `from` on.
proof fn lemma_line_absent(buf: Seq<u8>, from: int, payload: Seq<u8>)
    requires
        0 <= from <= buf.len(),
        buf.len() < from + payload.len() + 2,
        buf.subrange(from, buf.len() as int) == (payload + crlf()).take(buf.len() - from),
        forall|i: int| 0 <= i < payload.len() ==> #[trigger] payload[i] != 10,
    ensures
        line_end(buf, from) is None,
{
    let whole = payload + crlf();
    let part = whole.take(buf.len() - from);
    assert forall|j: int| from <= j implies !crlf_at(buf, j) by {
        if j + 1 < buf.len() {
            let k = j + 1 - from;
            assert(buf.subrange(from, buf.len() as int)[k] == buf[from + k]);
            assert(part[k] == whole[k]);
            if k < payload.len() {
                assert(whole[k] == payload[k]);
            } else {
                assert(whole[k] == 13);
            }
        }
    }
    lemma_line_end_none(buf, from);
}

/// Where the first line of an encoding stands whole in `buf` at `pos`, the
/// line is found there.
proof fn lemma_header_present(buf: Seq<u8>, pos: nat, tag: u8, payload: Seq<u8>, enc: Seq<u8>)
    requires
        pos + enc.len() <= buf.len(),
        buf.subrange(pos as int, pos as int + enc.len()) == enc,
        enc.len() >= payload.len() + 3,
        enc.subrange(0, payload.len() as int + 3) == seq![tag] + payload + crlf(),
        forall|i: int| 0 <= i < payload.len() ==> #[trigger] payload[i] != 10,
    ensures
        buf[pos as int] == tag,
        line_end(buf, pos as int + 1) == Some(pos as int + 1 + payload.len()),
        buf.subrange(pos as int + 1, pos as int + 1 + payload.len()) == payload,
{
    let first = seq![tag] + payload + crlf();
    assert forall|k: int| 0 <= k < first.len() implies buf[pos + k] == #[trigger] first[k] by {
        assert(buf.subrange(pos as int, pos as int + enc.len())[k] == buf[pos + k]);
        assert(enc.subrange(0, payload.len() as int + 3)[k] == enc[k]);
    }
    assert(first[0] == tag);
    let from = pos as int + 1;
    assert(buf.subrange(from, from + payload.len() + 2) =~= payload + crlf()) by {
        assert forall|k: int| 0 <= k < payload.len() + 2 implies buf[pos + 1 + k] == (payload
            + crlf())[k] by {
            assert(buf[pos + (k + 1)] == first[k + 1]);
        }
    }
    lemma_line_present(buf, pos as int + 1, payload);
}

/// Where `buf` holds the tag of an encoding at `pos` but ends before the
/// first line does, no line is found there.
proof fn lemma_header_truncated(buf: Seq<u8>, pos: nat, tag: u8, payload: Seq<u8>, enc: Seq<u8>)
    requires
        pos < buf.len() < pos + payload.len() + 3,
        buf.subrange(pos as int, buf.len() as int) == enc.take(buf.len() - pos),
        enc.len() >= payload.len() + 3,
        enc.subrange(0, payload.len() as int + 3) == seq![tag] + payload + crlf(),
        forall|i: int| 0 <= i < payload.len() ==> #[trigger] payload[i] != 10,
    ensures
        buf[pos as int] == tag,
        line_end(buf, pos as int + 1) is None,
{
    let first = seq![tag] + payload + crlf();
    let have = buf.len() - pos;
    assert forall|k: int| 0 <= k < have implies buf[pos + k] == #[trigger] first[k] by {
        assert(buf.subrange(pos as int, buf.len() as int)[k] == buf[pos + k]);
        assert(enc.take(have)[k] == enc[k]);
        assert(enc.subrange(0, payload.len() as int + 3)[k] == enc[k]);
    }
    assert(first[0] == tag);
    assert(buf.subrange(pos as int + 1, buf.len() as int) =~= (payload + crlf()).take(
        buf.len() - (pos + 1),
    )) by {
        assert forall|k: int| 0 <= k < have - 1 implies buf[pos + 1 + k] == (payload
            + crlf())[k] by {
            assert(buf[pos + (k + 1)] == first[k + 1]);
        }
    }
    lemma_line_absent(buf, pos as int + 1, payload);
}

/// The first line of the encoding of a frame: its tag and what stands
/// between the tag and the line terminator.
pub open spec fn header_of(f: FrameView) -> (u8, Seq<u8>) {
    match f {
        FrameView::Simple(s) => (43u8, encode_utf8(s)),
        FrameView::Error(s) => (45u8, encode_utf8(s)),
        FrameView::Integer(n) => (58u8, decimal(n as int)),
        FrameView::Null => (36u8, seq![45u8, 49u8]),
        FrameView::Bulk(b) => (36u8, digits(b.len())),
        FrameView::Array(fs) => (42u8, digits(fs.len())),
    }
}

/// The encoding of a well-formed frame starts with its header line, which
/// holds no line feed byte and reads back as what the frame's kind wrote.
proof fn lemma_header_of(f: FrameView)
    requires
        f.well_formed(),
    ensures
        encode_spec(f).len() >= header_of(f).1.len() + 3,
        encode_spec(f).subrange(0, header_of(f).1.len() as int + 3) == seq![header_of(f).0]
            + header_of(f).1 + crlf(),
        forall|i: int| 0 <= i < header_of(f).1.len() ==> #[trigger] header_of(f).1[i] != 10,
        match f {
            FrameView::Simple(s) => encode_spec(f).len() == header_of(f).1.len() + 3,
            FrameView::Error(s) => encode_spec(f).len() == header_of(f).1.len() + 3,
            FrameView::Integer(n) => encode_spec(f).len() == header_of(f).1.len() + 3
                && parse_int(header_of(f).1) == Some(n as int),
            FrameView::Null => encode_spec(f).len() == header_of(f).1.len() + 3 && parse_int(
                header_of(f).1,
            ) == Some(-1int),
            FrameView::Bulk(b) => encode_spec(f).len() == header_of(f).1.len() + 3 + b.len() + 2
                && parse_int(header_of(f).1) == Some(b.len() as int),
            FrameView::Array(fs) => encode_spec(f).len() == header_of(f).1.len() + 3 + encode_all(
                fs,
            ).len() && parse_int(header_of(f).1) == Some(fs.len() as int),
        },
{
    let enc = encode_spec(f);
    let (tag, payload) = header_of(f);
    match f {
        FrameView::Simple(s) => {
            lemma_utf8_no_line_feed(s);
            assert(enc.subrange(0, payload.len() as int + 3) =~= seq![tag] + payload + crlf());
        },
        FrameView::Error(s) => {
            lemma_utf8_no_line_feed(s);
            assert(enc.subrange(0, payload.len() as int + 3) =~= seq![tag] + payload + crlf());
        },
        FrameView::Integer(n) => {
            lemma_parse_decimal(n as int);
            assert(enc.subrange(0, payload.len() as int + 3) =~= seq![tag] + payload + crlf());
        },
        FrameView::Null => {
            lemma_parse_decimal(-1);
            assert(digits(1) =~= seq![49u8]);
            assert(decimal(-1) =~= payload);
            assert(enc.subrange(0, payload.len() as int + 3) =~= seq![tag] + payload + crlf());
        },
        FrameView::Bulk(b) => {
            lemma_parse_decimal(b.len() as int);
            assert(enc.subrange(0, payload.len() as int + 3) =~= seq![tag] + payload + crlf());
        },
        FrameView::Array(fs) => {
            lemma_parse_decimal(fs.len() as int);
            assert(enc.subrange(0, payload.len() as int + 3) =~= seq![tag] + payload + crlf());
        },
    }
}

/// Where the encoding of a well-formed frame stands in `buf` at `pos`,
/// decoding at `pos` gives the frame and the length of its encoding.
pub proof fn lemma_decode_at_encoded(f: FrameView, buf: Seq<u8>, pos: nat)
    requires
        f.well_formed(),
        pos + encode_spec(f).len() <= buf.len(),
        buf.subrange(pos as int, pos as int + encode_spec(f).len()) == encode_spec(f),
    ensures
        decode_at(buf, pos) == Decoded::Complete(f, encode_spec(f).len()),
    decreases f, 0int,
{
    let enc = encode_spec(f);
    let (tag, payload) = header_of(f);
    lemma_header_of(f);
    lemma_header_present(buf, pos, tag, payload, enc);
    let used = payload.len() as int + 3;
    assert forall|k: int| 0 <= k < enc.len() implies buf[pos + k] == #[trigger] enc[k] by {
        assert(buf.subrange(pos as int, pos as int + enc.len())[k] == buf[pos + k]);
    }
    match f {
        FrameView::Simple(s) => {
            encode_utf8_valid_utf8(s);
            encode_utf8_decode_utf8(s);
        },
        FrameView::Error(s) => {
            encode_utf8_valid_utf8(s);
            encode_utf8_decode_utf8(s);
        },
        FrameView::Integer(n) => {},
        FrameView::Null => {},
        FrameView::Bulk(b) => {
            assert(enc[used + b.len()] == 13 && enc[used + b.len() + 1] == 10);
            assert(buf[pos + (used + b.len())] == 13);
            assert(buf[pos + (used + b.len() + 1)] == 10);
            assert(crlf_at(buf, pos + used + b.len()));
            assert(buf.subrange(pos + used, pos + used + b.len()) =~= b) by {
                assert forall|k: int| 0 <= k < b.len() implies buf[pos + used + k] == b[k] by {
                    assert(buf[pos + (used + k)] == enc[used + k]);
                }
            }
        },
        FrameView::Array(fs) => {
            let body = encode_all(fs);
            assert(buf.subrange(pos + used, pos + used + body.len()) =~= body) by {
                assert forall|k: int| 0 <= k < body.len() implies buf[pos + used + k]
                    == body[k] by {
                    assert(buf[pos + (used + k)] == enc[used + k]);
                }
            }
            lemma_decode_seq_at_encoded(fs, buf, (pos + used) as nat);
        },
    }
}

/// Where the encodings of well-formed frames stand in `buf` one after the
/// other from `pos` on, decoding that many frames at `pos` gives them.
pub proof fn lemma_decode_seq_at_encoded(fs: Seq<FrameView>, buf: Seq<u8>, pos: nat)
    requires
        forall|i: int| 0 <= i < fs.len() ==> (#[trigger] fs[i]).well_formed(),
        pos + encode_all(fs).len() <= buf.len(),
        buf.subrange(pos as int, pos as int + encode_all(fs).len()) == encode_all(fs),
    ensures
        decode_seq_at(buf, pos, fs.len()) == DecodedSeq::Complete(fs, encode_all(fs).len()),
    decreases fs, 1int,
{
    if fs.len() == 0 {
        assert(fs =~= Seq::<FrameView>::empty());
    } else {
        let init = fs.drop_last();
        let last = fs.last();
        let a = encode_all(init);
        let b = encode_spec(last);
        let all = encode_all(fs);
        assert(all == a + b);
        assert forall|k: int| 0 <= k < all.len() implies buf[pos + k] == #[trigger] all[k] by {
            assert(buf.subrange(pos as int, pos as int + all.len())[k] == buf[pos + k]);
        }
        assert(buf.subrange(pos as int, pos as int + a.len()) =~= a) by {
            assert forall|k: int| 0 <= k < a.len() implies buf[pos + k] == a[k] by {
                assert(buf[pos + k] == all[k]);
            }
        }
        assert(buf.subrange((pos + a.len()) as int, pos as int + a.len() + b.len()) =~= b) by {
            assert forall|k: int| 0 <= k < b.len() implies buf[pos + a.len() + k] == b[k] by {
                assert(buf[pos + (a.len() + k)] == all[a.len() + k]);
            }
        }
        assert forall|i: int| 0 <= i < init.len() implies (#[trigger] init[i]).well_formed() by {
            assert(init[i] == fs[i]);
        }
        lemma_decode_seq_at_encoded(init, buf, pos);
        lemma_decode_at_encoded(last, buf, pos + a.len());
        assert(init.push(last) =~= fs);
    }
}

/// Decoding the bytes of a well-formed frame, whatever follows them, gives
/// the frame back, and the number of bytes it was written in.
pub proof fn lemma_decode_encode(f: FrameView, rest: Seq<u8>)
    requires
        f.well_formed(),
    ensures
        decode_spec(encode_spec(f) + rest) == Decoded::Complete(f, encode_spec(f).len()),
{
    let buf = encode_spec(f) + rest;
    assert(buf.subrange(0, encode_spec(f).len() as int) =~= encode_spec(f));
    lemma_decode_at_encoded(f, buf, 0);
}

/// Where `buf` ends before the encoding of a well-formed frame that starts
/// at `pos` does, decoding at `pos` asks for more bytes.
pub proof fn lemma_decode_at_truncated(f: FrameView, buf: Seq<u8>, pos: nat)
    requires
        f.well_formed(),
        pos <= buf.len() < pos + encode_spec(f).len(),
        buf.subrange(pos as int, buf.len() as int) == encode_spec(f).take(buf.len() - pos),
    ensures
        decode_at(buf, pos) == Decoded::Incomplete,
    decreases f, 0int,
{
    let enc = encode_spec(f);
    let (tag, payload) = header_of(f);
    let have = buf.len() - pos;
    lemma_header_of(f);
    if have == 0 {
    } else if have < payload.len() + 3 {
        lemma_header_truncated(buf, pos, tag, payload, enc);
    } else {
        assert forall|k: int| 0 <= k < have implies buf[pos + k] == #[trigger] enc[k] by {
            assert(buf.subrange(pos as int, buf.len() as int)[k] == buf[pos + k]);
            assert(enc.take(have)[k] == enc[k]);
        }
        let used = payload.len() as int + 3;
        let first = seq![tag] + payload + crlf();
        assert(buf.subrange(pos as int, pos + used) =~= first) by {
            assert forall|k: int| 0 <= k < used implies buf[pos + k] == first[k] by {
                assert(enc.subrange(0, used)[k] == enc[k]);
            }
        }
        assert(first.subrange(0, used) =~= first);
        lemma_header_present(buf, pos, tag, payload, first);
        match f {
            FrameView::Simple(s) => {},
            FrameView::Error(s) => {},
            FrameView::Integer(n) => {},
            FrameView::Null => {},
            FrameView::Bulk(b) => {},
            FrameView::Array(fs) => {
                let body = encode_all(fs);
                assert(buf.subrange(pos + used, buf.len() as int) =~= body.take(have - used)) by {
                    assert forall|k: int| 0 <= k < have - used implies buf[pos + used + k]
                        == body[k] by {
                        assert(buf[pos + (used + k)] == enc[used + k]);
                    }
                }
                lemma_decode_seq_at_truncated(fs, buf, (pos + used) as nat);
            },
        }
    }
}

/// Where `buf` ends before the encodings of well-formed frames that start
/// at `pos` do, decoding that many frames at `pos` asks for more bytes.
pub proof fn lemma_decode_seq_at_truncated(fs: Seq<FrameView>, buf: Seq<u8>, pos: nat)
    requires
        forall|i: int| 0 <= i < fs.len() ==> (#[trigger] fs[i]).well_formed(),
        pos <= buf.len() < pos + encode_all(fs).len(),
        buf.subrange(pos as int, buf.len() as int) == encode_all(fs).take(buf.len() - pos),
    ensures
        decode_seq_at(buf, pos, fs.len()) == DecodedSeq::Incomplete,
    decreases fs, 1int,
{
    let init = fs.drop_last();
    let last = fs.last();
    let a = encode_all(init);
    let b = encode_spec(last);
    let all = encode_all(fs);
    let have = buf.len() - pos;
    assert(all == a + b);
    assert forall|k: int| 0 <= k < have implies buf[pos + k] == #[trigger] all[k] by {
        assert(buf.subrange(pos as int, buf.len() as int)[k] == buf[pos + k]);
        assert(all.take(have)[k] == all[k]);
    }
    assert forall|i: int| 0 <= i < init.len() implies (#[trigger] init[i]).well_formed() by {
        assert(init[i] == fs[i]);
    }
    if have < a.len() {
        assert(buf.subrange(pos as int, buf.len() as int) =~= a.take(have)) by {
            assert forall|k: int| 0 <= k < have implies buf[pos + k] == a[k] by {
                assert(buf[pos + k] == all[k]);
            }
        }
        lemma_decode_seq_at_truncated(init, buf, pos);
    } else {
        assert(buf.subrange(pos as int, pos as int + a.len()) =~= a) by {
            assert forall|k: int| 0 <= k < a.len() implies buf[pos + k] == a[k] by {
                assert(buf[pos + k] == all[k]);
            }
        }
        lemma_decode_seq_at_encoded(init, buf, pos);
        assert(buf.subrange((pos + a.len()) as int, buf.len() as int) =~= b.take(
            buf.len() - (pos + a.len()),
        )) by {
            assert forall|k: int| 0 <= k < have - a.len() implies buf[pos + a.len() + k]
                == b[k] by {
                assert(buf[pos + (a.len() + k)] == all[a.len() + k]);
            }
        }
        lemma_decode_at_truncated(last, buf, pos + a.len());
    }
}

/// Decoding less than all the bytes of a well-formed frame asks for more
/// bytes, wherever the bytes are cut.
pub proof fn lemma_decode_prefix_incomplete(f: FrameView, k: int)
    requires
        f.well_formed(),
        0 <= k < encode_spec(f).len(),
    ensures
        decode_spec(encode_spec(f).take(k)) == Decoded::Incomplete,
{
    let buf = encode_spec(f).take(k);
    assert(buf.subrange(0, buf.len() as int) =~= encode_spec(f).take(buf.len() - 0));
    lemma_decode_at_truncated(f, buf, 0);
}

} // verus!
