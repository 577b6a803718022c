//! What this library believes of code it does not verify: `bytes::Bytes`
//! and a few functions of std that vstd leaves unspecified.

use bytes::Bytes;
use std::time::Duration;
use vstd::prelude::*;
use vstd::utf8::{encode_utf8, valid_utf8};

verus! {

/// `bytes::Bytes`, a cheaply cloneable run of bytes. Opaque to the verifier:
/// what it holds is named by [`bytes_seq`].
#[verifier::external_type_specification]
#[verifier::external_body]
pub struct ExBytes(bytes::Bytes);

/// The bytes that a `Bytes` value holds, in order.
pub uninterp spec fn bytes_seq(b: Bytes) -> Seq<u8>;

/// `Bytes::from(Vec<u8>)`: the result holds exactly the bytes of the vector.
#[verifier::external_body]
pub(crate) fn bytes_from_vec(v: Vec<u8>) -> (b: Bytes)
    ensures
        bytes_seq(b) == v@,
{
    Bytes::from(v)
}

/// `<Bytes as AsRef<[u8]>>::as_ref`: the slice is the content of the value.
#[verifier::external_body]
pub(crate) fn bytes_as_slice(b: &Bytes) -> (s: &[u8])
    ensures
        s@ == bytes_seq(*b),
{
    b.as_ref()
}

/// `<Bytes as Clone>::clone`: the clone holds the same bytes.
#[verifier::external_body]
pub(crate) fn bytes_clone(b: &Bytes) -> (c: Bytes)
    ensures
        bytes_seq(c) == bytes_seq(*b),
{
    b.clone()
}

/// `String::from_utf8`: succeeds exactly on well-formed UTF-8, and the
/// string it gives encodes back to the bytes it was made from.
#[verifier::external_body]
pub(crate) fn string_from_utf8(v: Vec<u8>) -> (r: Option<String>)
    ensures
        r is Some <==> valid_utf8(v@),
        r matches Some(s) ==> encode_utf8(s@) == v@,
{
    match String::from_utf8(v) {
        Ok(s) => Some(s),
        Err(_) => None,
    }
}

/// The whole milliseconds that a `Duration` spans: what
/// `Duration::as_millis` returns.
pub uninterp spec fn duration_millis(d: Duration) -> nat;

/// `Duration::from_secs`: a span of `secs` whole seconds.
pub assume_specification[ Duration::from_secs ](secs: u64) -> (d: Duration)
    ensures
        duration_millis(d) == secs * 1000,
;

/// `Duration::from_millis`: a span of `millis` milliseconds.
pub assume_specification[ Duration::from_millis ](millis: u64) -> (d: Duration)
    ensures
        duration_millis(d) == millis,
;

/// `Duration::as_millis`: the whole milliseconds of the span.
pub assume_specification[ Duration::as_millis ](d: &Duration) -> (ms: u128)
    ensures
        ms == duration_millis(*d),
;

} // verus!
