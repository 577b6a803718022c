//! Small tools for bytes and text: copying, comparing, and comparing
//! without regard to the case of ASCII letters.

use vstd::prelude::*;
use vstd::utf8::{
    char_is_scalar, char_u32_cast, encode_scalar, encode_utf8, encode_utf8_decode_utf8, is_scalar,
};

verus! {

/// A copy of the bytes of `buf` from `start` up to `end`.
pub fn copy_range(buf: &[u8], start: usize, end: usize) -> (out: Vec<u8>)
    requires
        start <= end <= buf@.len(),
    ensures
        out@ == buf@.subrange(start as int, end as int),
{
    let mut out: Vec<u8> = Vec::with_capacity(end - start);
    let mut i: usize = start;
    while i < end
        invariant
            start <= i <= end <= buf@.len(),
            out@ == buf@.subrange(start as int, i as int),
        decreases end - i,
    {
        out.push(buf[i]);
        i = i + 1;
        assert(out@ =~= buf@.subrange(start as int, i as int));
    }
    out
}

/// The bytes of `text` as a vector of its own.
pub fn text_bytes(text: &str) -> (out: Vec<u8>)
    ensures
        out@ == encode_utf8(text@),
{
    let bytes = text.as_bytes();
    assert(bytes@.subrange(0, bytes@.len() as int) =~= bytes@);
    copy_range(bytes, 0, bytes.len())
}

/// Whether two strings are the same text.
pub fn same_text(a: &str, b: &str) -> (same: bool)
    ensures
        same == (a@ == b@),
{
    let x = a.as_bytes();
    let y = b.as_bytes();
    assert(x@ == encode_utf8(a@) && y@ == encode_utf8(b@));
    if x.len() != y.len() {
        return false;
    }
    let mut i: usize = 0;
    while i < x.len()
        invariant
            i <= x@.len(),
            x@.len() == y@.len(),
            x@ == encode_utf8(a@),
            y@ == encode_utf8(b@),
            x@.take(i as int) == y@.take(i as int),
        decreases x@.len() - i,
    {
        if x[i] != y[i] {
            return false;
        }
        i = i + 1;
        assert(x@.take(i as int) =~= x@.take(i - 1).push(x@[i - 1]));
        assert(y@.take(i as int) =~= y@.take(i - 1).push(y@[i - 1]));
    }
    proof {
        assert(x@ =~= x@.take(i as int));
        assert(y@ =~= y@.take(i as int));
        encode_utf8_decode_utf8(a@);
        encode_utf8_decode_utf8(b@);
    }
    true
}

/// The byte `b`, or its upper-case form where it is a lower-case ASCII
/// letter.
pub open spec fn upper(b: u8) -> u8 {
    if 97 <= b <= 122 {
        (b - 32) as u8
    } else {
        b
    }
}

/// `text` and `word` are the same but for the case of ASCII letters.
pub open spec fn same_word(text: Seq<u8>, word: Seq<u8>) -> bool {
    text.len() == word.len() && forall|i: int|
        0 <= i < text.len() ==> upper(#[trigger] text[i]) == upper(word[i])
}

/// Whether `text` and `word` are the same but for the case of ASCII
/// letters.
pub fn matches_word(text: &[u8], word: &[u8]) -> (same: bool)
    ensures
        same == same_word(text@, word@),
{
    if text.len() != word.len() {
        return false;
    }
    let mut i: usize = 0;
    while i < text.len()
        invariant
            i <= text@.len(),
            text@.len() == word@.len(),
            forall|j: int| 0 <= j < i ==> upper(#[trigger] text@[j]) == upper(word@[j]),
        decreases text@.len() - i,
    {
        let a: u8 = text[i];
        let b: u8 = word[i];
        let ua: u8 = if 97 <= a && a <= 122 { a - 32 } else { a };
        let ub: u8 = if 97 <= b && b <= 122 { b - 32 } else { b };
        if ua != ub {
            return false;
        }
        i = i + 1;
    }
    true
}

/// No character of `s` is a line feed.
pub open spec fn no_line_feed(s: Seq<char>) -> bool {
    forall|i: int| 0 <= i < s.len() ==> #[trigger] s[i] != '\n'
}

/// No byte of the UTF-8 form of a scalar other than the line feed is a line
/// feed.
proof fn lemma_scalar_no_line_feed(c: u32)
    requires
        is_scalar(c),
        c != 10,
    ensures
        forall|i: int| 0 <= i < encode_scalar(c).len() ==> #[trigger] encode_scalar(c)[i] != 10,
{
    assert(c <= 0x7F ==> (c & 0x7F) as u8 != 10) by (bit_vector)
        requires
            c != 10,
    ;
    assert(0xC0u8 | ((c >> 6) & 0x1F) as u8 != 10) by (bit_vector);
    assert(0xE0u8 | ((c >> 12) & 0x0F) as u8 != 10) by (bit_vector);
    assert(0xF0u8 | ((c >> 18) & 0x7) as u8 != 10) by (bit_vector);
    assert(0x80u8 | (c & 0x3F) as u8 != 10) by (bit_vector);
    assert(0x80u8 | ((c >> 6) & 0x3F) as u8 != 10) by (bit_vector);
    assert(0x80u8 | ((c >> 12) & 0x3F) as u8 != 10) by (bit_vector);
}

/// Text without a line feed has a UTF-8 form without the line feed byte.
pub proof fn lemma_utf8_no_line_feed(s: Seq<char>)
    requires
        no_line_feed(s),
    ensures
        forall|i: int| 0 <= i < encode_utf8(s).len() ==> #[trigger] encode_utf8(s)[i] != 10,
    decreases s.len(),
{
    if s.len() > 0 {
        let c = s[0] as u32;
        char_is_scalar(s[0]);
        assert(c != 10) by {
            assert(s[0] != '\n');
            char_u32_cast(s[0], c);
            char_u32_cast('\n', 10u32);
        }
        lemma_scalar_no_line_feed(c);
        let rest = s.drop_first();
        assert(no_line_feed(rest)) by {
            assert forall|i: int| 0 <= i < rest.len() implies #[trigger] rest[i] != '\n' by {
                assert(rest[i] == s[i + 1]);
            }
        }
        lemma_utf8_no_line_feed(rest);
        let head = encode_scalar(c);
        let tail = encode_utf8(rest);
        assert forall|i: int| 0 <= i < encode_utf8(s).len() implies #[trigger] encode_utf8(s)[i]
            != 10 by {
            if i < head.len() {
                assert(encode_utf8(s)[i] == head[i]);
            } else {
                assert(encode_utf8(s)[i] == tail[i - head.len()]);
            }
        }
    }
}

/// Text with a line feed has a UTF-8 form with the line feed byte.
pub proof fn lemma_utf8_line_feed(s: Seq<char>)
    requires
        !no_line_feed(s),
    ensures
        exists|i: int| 0 <= i < encode_utf8(s).len() && #[trigger] encode_utf8(s)[i] == 10,
    decreases s.len(),
{
    let k = choose|k: int| 0 <= k < s.len() && #[trigger] s[k] == '\n';
    let head = encode_scalar(s[0] as u32);
    let tail = encode_utf8(s.drop_first());
    if k == 0 {
        assert(s[0] as u32 == 10);
        assert((10u32 & 0x7F) as u8 == 10) by (bit_vector);
        assert(head[0] == 10);
        assert(encode_utf8(s)[0] == 10);
    } else {
        let rest = s.drop_first();
        assert(rest[k - 1] == '\n');
        lemma_utf8_line_feed(rest);
        let i = choose|i: int| 0 <= i < tail.len() && #[trigger] tail[i] == 10;
        assert(encode_utf8(s)[head.len() + i] == tail[i]);
    }
}

/// Whether no character of `text` is a line feed.
pub fn has_no_line_feed(text: &str) -> (ok: bool)
    ensures
        ok == no_line_feed(text@),
{
    let bytes = text.as_bytes();
    let mut i: usize = 0;
    while i < bytes.len()
        invariant
            i <= bytes@.len(),
            bytes@ == encode_utf8(text@),
            forall|j: int| 0 <= j < i ==> #[trigger] bytes@[j] != 10,
        decreases bytes@.len() - i,
    {
        if bytes[i] == 10u8 {
            proof {
                if no_line_feed(text@) {
                    lemma_utf8_no_line_feed(text@);
                }
            }
            return false;
        }
        i = i + 1;
    }
    proof {
        if !no_line_feed(text@) {
            lemma_utf8_line_feed(text@);
        }
    }
    true
}

/// The UTF-8 form of a text takes at most four bytes for a character.
pub proof fn lemma_utf8_len(s: Seq<char>)
    ensures
        encode_utf8(s).len() <= 4 * s.len(),
    decreases s.len(),
{
    if s.len() > 0 {
        lemma_utf8_len(s.drop_first());
    }
}

} // verus!
