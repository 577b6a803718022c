//! Base-10 ASCII numbers, as the wire protocol writes integers and lengths.

use vstd::prelude::*;

verus! {

/// The byte `b` is an ASCII digit.
pub open spec fn is_digit(b: u8) -> bool {
    48 <= b <= 57
}

/// Every byte of `s` is an ASCII digit.
pub open spec fn all_digits(s: Seq<u8>) -> bool {
    forall|i: int| 0 <= i < s.len() ==> is_digit(#[trigger] s[i])
}

/// The number that a run of ASCII digits denotes, most significant first.
pub open spec fn digits_value(s: Seq<u8>) -> nat
    decreases s.len(),
{
    if s.len() == 0 {
        0
    } else {
        (digits_value(s.drop_last()) * 10 + (s.last() - 48)) as nat
    }
}

/// The digits of `n` in base 10, without leading zeros.
pub open spec fn digits(n: nat) -> Seq<u8>
    decreases n,
{
    if n < 10 {
        seq![(48 + n) as u8]
    } else {
        digits(n / 10).push((48 + n % 10) as u8)
    }
}

/// The text of `n` in base 10: a minus sign for a negative number, then
/// its digits.
pub open spec fn decimal(n: int) -> Seq<u8> {
    if n < 0 {
        seq![45u8] + digits((-n) as nat)
    } else {
        digits(n as nat)
    }
}

/// The number that `line` denotes: an optional minus sign followed by one
/// or more digits. `None` where `line` has another shape.
pub open spec fn parse_int(line: Seq<u8>) -> Option<int> {
    if line.len() >= 1 && line[0] == 45 {
        if line.len() >= 2 && all_digits(line.skip(1)) {
            Some(-(digits_value(line.skip(1)) as int))
        } else {
            None
        }
    } else if line.len() >= 1 && all_digits(line) {
        Some(digits_value(line) as int)
    } else {
        None
    }
}

/// The digits of a number are digits, at least one of them, and denote it.
pub proof fn lemma_digits(n: nat)
    ensures
        digits(n).len() >= 1,
        all_digits(digits(n)),
        digits_value(digits(n)) == n,
    decreases n,
{
    if n < 10 {
        let s = digits(n);
        assert(s.drop_last() =~= Seq::<u8>::empty());
        assert(digits_value(s.drop_last()) == 0);
    } else {
        lemma_digits(n / 10);
        let s = digits(n);
        assert(s.drop_last() =~= digits(n / 10));
    }
}

/// Reading back the text of a number gives the number.
pub proof fn lemma_parse_decimal(n: int)
    ensures
        parse_int(decimal(n)) == Some(n),
        decimal(n).len() >= 1,
        forall|i: int| 0 <= i < decimal(n).len() ==> #[trigger] decimal(n)[i] != 10,
{
    if n < 0 {
        let m = (-n) as nat;
        lemma_digits(m);
        let line = decimal(n);
        assert(line.skip(1) =~= digits(m));
        assert forall|i: int| 0 <= i < line.len() implies #[trigger] line[i] != 10 by {
            if i >= 1 {
                assert(line[i] == digits(m)[i - 1]);
            }
        }
    } else {
        lemma_digits(n as nat);
    }
}

/// A longer run of digits denotes at least as much as any of its prefixes.
pub proof fn lemma_digits_value_monotone(s: Seq<u8>, k: int)
    requires
        all_digits(s),
        0 <= k <= s.len(),
    ensures
        digits_value(s.take(k)) <= digits_value(s),
    decreases s.len() - k,
{
    if k == s.len() {
        assert(s.take(k) =~= s);
    } else {
        lemma_digits_value_monotone(s, k + 1);
        let t = s.take(k + 1);
        assert(t.drop_last() =~= s.take(k));
        assert(is_digit(s[k]));
    }
}

/// Appends the digits of `n` to `dst`.
pub fn push_digits(dst: &mut Vec<u8>, n: u64)
    ensures
        final(dst)@ == old(dst)@ + digits(n as nat),
{
    // The digits come out least significant first.
    let mut tmp: Vec<u8> = Vec::new();
    let mut m: u64 = n;
    while m >= 10
        invariant
            digits(n as nat) == digits(m as nat) + tmp@.reverse(),
        decreases m,
    {
        let d: u8 = (m % 10) as u8;
        proof {
            assert(tmp@.push((48 + d) as u8).reverse() =~= seq![(48 + d) as u8] + tmp@.reverse());
            assert(digits(m as nat) =~= digits((m / 10) as nat) + seq![(48 + d) as u8]);
        }
        tmp.push(48 + d);
        m = m / 10;
    }
    dst.push(48 + (m as u8));
    let mut i: usize = tmp.len();
    while i > 0
        invariant
            i <= tmp.len(),
            m < 10,
            dst@ =~= old(dst)@ + digits(m as nat) + tmp@.reverse().take(tmp.len() - i),
        decreases i,
    {
        i = i - 1;
        dst.push(tmp[i]);
    }
    assert(tmp@.reverse().take(tmp.len() as int) =~= tmp@.reverse());
    assert(dst@ =~= old(dst)@ + (digits(m as nat) + tmp@.reverse()));
}

/// Appends the text of `n` in base 10 to `dst`.
pub fn push_decimal(dst: &mut Vec<u8>, n: i64)
    ensures
        final(dst)@ == old(dst)@ + decimal(n as int),
{
    if n < 0 {
        dst.push(45u8);
        let m: u64 = if n == i64::MIN {
            9223372036854775808u64
        } else {
            (-n) as u64
        };
        push_digits(dst, m);
        assert(dst@ =~= old(dst)@ + (seq![45u8] + digits((-n) as nat)));
    } else {
        push_digits(dst, n as u64);
    }
}

/// Reads the bytes of `buf` from `start` up to `end` as a number. Gives the
/// number where the bytes are an optional minus sign and then digits, and
/// the digits denote no more than `u64::MAX`.
pub fn read_int(buf: &[u8], start: usize, end: usize) -> (r: Option<i128>)
    requires
        start <= end <= buf@.len(),
    ensures
        r == match parse_int(buf@.subrange(start as int, end as int)) {
            Some(v) => if -(u64::MAX as int) <= v <= u64::MAX as int {
                Some(v as i128)
            } else {
                None
            },
            None => None,
        },
{
    let ghost line = buf@.subrange(start as int, end as int);
    if start == end {
        return None;
    }
    let negative: bool = buf[start] == 45u8;
    let first: usize = if negative { start + 1 } else { start };
    if first == end {
        return None;
    }
    let ghost ds = buf@.subrange(first as int, end as int);
    assert(negative ==> ds =~= line.skip(1));
    assert(!negative ==> ds =~= line);
    assert(line[0] == buf@[start as int]);
    let mut acc: u64 = 0;
    let mut i: usize = first;
    while i < end
        invariant
            first <= i <= end <= buf@.len(),
            start <= first < end,
            line == buf@.subrange(start as int, end as int),
            ds == buf@.subrange(first as int, end as int),
            negative == (line[0] == 45),
            negative ==> ds == line.skip(1),
            !negative ==> ds == line,
            all_digits(ds.take(i - first)),
            acc == digits_value(ds.take(i - first)),
        decreases end - i,
    {
        let b: u8 = buf[i];
        if b < 48 || b > 57 {
            assert(!is_digit(ds[i - first]));
            return None;
        }
        let d: u64 = (b - 48) as u64;
        proof {
            let t = ds.take(i - first + 1);
            assert(t.drop_last() =~= ds.take(i - first));
            assert(t.last() == b);
            assert forall|j: int| 0 <= j < t.len() implies is_digit(#[trigger] t[j]) by {
                if j < t.len() - 1 {
                    assert(t[j] == ds.take(i - first)[j]);
                }
            }
        }
        if acc > (u64::MAX - d) / 10 {
            // Whatever follows, a run of digits can only denote more.
            let mut j: usize = i + 1;
            while j < end
                invariant
                    i < j <= end <= buf@.len(),
                    start <= first <= i,
                    line == buf@.subrange(start as int, end as int),
                    ds == buf@.subrange(first as int, end as int),
                    negative == (line[0] == 45),
                    negative ==> ds == line.skip(1),
                    !negative ==> ds == line,
                    all_digits(ds.take(j - first)),
                decreases end - j,
            {
                let c: u8 = buf[j];
                if c < 48 || c > 57 {
                    assert(!is_digit(ds[j - first]));
                    return None;
                }
                proof {
                    let t = ds.take(j - first + 1);
                    assert forall|k: int| 0 <= k < t.len() implies is_digit(#[trigger] t[k]) by {
                        if k < t.len() - 1 {
                            assert(t[k] == ds.take(j - first)[k]);
                        }
                    }
                }
                j = j + 1;
            }
            proof {
                assert(ds.take(end - first) =~= ds);
                lemma_digits_value_monotone(ds, i - first + 1);
                assert(digits_value(ds.take(i - first + 1)) == acc * 10 + d);
            }
            return None;
        }
        acc = acc * 10 + d;
        i = i + 1;
    }
    assert(ds.take(end - first) =~= ds);
    if negative {
        Some(-(acc as i128))
    } else {
        Some(acc as i128)
    }
}

} // verus!
