//! The calls this library makes into `bytes` and into `std` functions that
//! vstd gives no specification. Each item here is trusted: its contract is
//! read off the outside function's source or documentation, not proved.

use bytes::BufMut;
use vstd::prelude::*;
use vstd::utf8::{decode_utf8, valid_utf8};

verus! {

/// The four big-endian bytes of `n`, as `u32::to_be_bytes` gives them.
pub open spec fn be_bytes_u32(n: u32) -> Seq<u8> {
    seq![
        ((n >> 24u32) & 0xffu32) as u8,
        ((n >> 16u32) & 0xffu32) as u8,
        ((n >> 8u32) & 0xffu32) as u8,
        (n & 0xffu32) as u8,
    ]
}

/// The eight big-endian bytes of `n`, as `u64::to_be_bytes` gives them.
pub open spec fn be_bytes_u64(n: u64) -> Seq<u8> {
    seq![
        ((n >> 56u64) & 0xffu64) as u8,
        ((n >> 48u64) & 0xffu64) as u8,
        ((n >> 40u64) & 0xffu64) as u8,
        ((n >> 32u64) & 0xffu64) as u8,
        ((n >> 24u64) & 0xffu64) as u8,
        ((n >> 16u64) & 0xffu64) as u8,
        ((n >> 8u64) & 0xffu64) as u8,
        (n & 0xffu64) as u8,
    ]
}

/// The eight big-endian bytes of `n` in two's complement (`i64::to_be_bytes`).
pub open spec fn be_bytes_i64(n: i64) -> Seq<u8> {
    be_bytes_u64(n as u64)
}

/// The `u32` whose big-endian bytes are the first four of `b`.
pub open spec fn u32_from_be(b: Seq<u8>) -> u32 {
    ((b[0] as u32) << 24u32) | ((b[1] as u32) << 16u32) | ((b[2] as u32) << 8u32) | (b[3] as u32)
}

/// The `u64` whose big-endian bytes are the first eight of `b`.
pub open spec fn u64_from_be(b: Seq<u8>) -> u64 {
    ((b[0] as u64) << 56u64) | ((b[1] as u64) << 48u64) | ((b[2] as u64) << 40u64) | ((b[3] as u64)
        << 32u64) | ((b[4] as u64) << 24u64) | ((b[5] as u64) << 16u64) | ((b[6] as u64) << 8u64)
        | (b[7] as u64)
}

/// The `i64` whose two's-complement big-endian bytes are the first eight of `b`.
pub open spec fn i64_from_be(b: Seq<u8>) -> i64 {
    u64_from_be(b) as i64
}

/// `BufMut::put_u8` of the `bytes` crate on a `Vec<u8>`: its source appends
/// the one byte with `extend_from_slice`. A vector holds at most
/// `isize::MAX` bytes, beyond which the append panics.
#[verifier::external_body]
pub fn buf_put_u8(buf: &mut Vec<u8>, n: u8)
    requires
        old(buf)@.len() + 1 <= isize::MAX,
    ensures
        final(buf)@ == old(buf)@.push(n),
{
    buf.put_u8(n)
}

/// `BufMut::put_u32` of the `bytes` crate on a `Vec<u8>`: its source appends
/// `n.to_be_bytes()`.
#[verifier::external_body]
pub fn buf_put_u32(buf: &mut Vec<u8>, n: u32)
    requires
        old(buf)@.len() + 4 <= isize::MAX,
    ensures
        final(buf)@ == old(buf)@ + be_bytes_u32(n),
{
    buf.put_u32(n)
}

/// `BufMut::put_i64` of the `bytes` crate on a `Vec<u8>`: its source appends
/// `n.to_be_bytes()`.
#[verifier::external_body]
pub fn buf_put_i64(buf: &mut Vec<u8>, n: i64)
    requires
        old(buf)@.len() + 8 <= isize::MAX,
    ensures
        final(buf)@ == old(buf)@ + be_bytes_i64(n),
{
    buf.put_i64(n)
}

/// `String::from_utf8`: documented to succeed exactly when the bytes are
/// valid UTF-8, and then to hold the characters they encode. The error is
/// turned into `None`.
#[verifier::external_body]
pub fn string_from_utf8(bytes: Vec<u8>) -> (s: Option<String>)
    ensures
        s is Some <==> valid_utf8(bytes@),
        s matches Some(s) ==> s@ == decode_utf8(bytes@),
{
    String::from_utf8(bytes).ok()
}

} // verus!
