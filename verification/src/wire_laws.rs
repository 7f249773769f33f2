//! Laws of the wire format: what the parser reads back from what the
//! serializer writes.

use crate::ext::{be_bytes_i64, be_bytes_u32, be_bytes_u64, i64_from_be, u32_from_be, u64_from_be};
use crate::wire::{
    check_at, check_passes, check_safe, check_seq_at, crlf, null_free, find_crlf, is_crlf_at, line_at, no_crlf, parse_at, parse_seq_at, serialize,
    serialize_seq, wire_safe, Scan, SpecFrame, CR, ERROR_HEAD, LF, SIMPLE_HEAD,
};
use vstd::prelude::*;
use vstd::utf8::*;

verus! {

/// Reading four big-endian bytes undoes writing them.
pub proof fn lemma_u32_be_roundtrip(n: u32)
    ensures
        be_bytes_u32(n).len() == 4,
        u32_from_be(be_bytes_u32(n)) == n,
{
    let b = be_bytes_u32(n);
    let b0 = b[0];
    let b1 = b[1];
    let b2 = b[2];
    let b3 = b[3];
    assert(b0 == ((n >> 24u32) & 0xffu32) as u8);
    assert(b3 == (n & 0xffu32) as u8);
    assert(((b0 as u32) << 24u32) | ((b1 as u32) << 16u32) | ((b2 as u32) << 8u32) | (b3 as u32)
        == n) by (bit_vector)
        requires
            b0 == ((n >> 24u32) & 0xffu32) as u8,
            b1 == ((n >> 16u32) & 0xffu32) as u8,
            b2 == ((n >> 8u32) & 0xffu32) as u8,
            b3 == (n & 0xffu32) as u8,
    ;
}

/// Reading eight big-endian bytes undoes writing them.
pub proof fn lemma_u64_be_roundtrip(n: u64)
    ensures
        be_bytes_u64(n).len() == 8,
        u64_from_be(be_bytes_u64(n)) == n,
{
    let b = be_bytes_u64(n);
    let b0 = b[0];
    let b1 = b[1];
    let b2 = b[2];
    let b3 = b[3];
    let b4 = b[4];
    let b5 = b[5];
    let b6 = b[6];
    let b7 = b[7];
    assert(((b0 as u64) << 56u64) | ((b1 as u64) << 48u64) | ((b2 as u64) << 40u64) | ((b3 as u64)
        << 32u64) | ((b4 as u64) << 24u64) | ((b5 as u64) << 16u64) | ((b6 as u64) << 8u64) | (
    b7 as u64) == n) by (bit_vector)
        requires
            b0 == ((n >> 56u64) & 0xffu64) as u8,
            b1 == ((n >> 48u64) & 0xffu64) as u8,
            b2 == ((n >> 40u64) & 0xffu64) as u8,
            b3 == ((n >> 32u64) & 0xffu64) as u8,
            b4 == ((n >> 24u64) & 0xffu64) as u8,
            b5 == ((n >> 16u64) & 0xffu64) as u8,
            b6 == ((n >> 8u64) & 0xffu64) as u8,
            b7 == (n & 0xffu64) as u8,
    ;
}

/// Reading an `i64` back from its eight big-endian bytes gives it again.
pub proof fn lemma_i64_be_roundtrip(v: i64)
    ensures
        be_bytes_i64(v).len() == 8,
        i64_from_be(be_bytes_i64(v)) == v,
{
    lemma_u64_be_roundtrip(v as u64);
    assert(((v as u64) as i64) == v) by (bit_vector);
}

/// When no terminator starts in `[from, end)` and one starts at `end`,
/// the first terminator found from `from` is the one at `end`.
pub proof fn lemma_find_crlf_at(data: Seq<u8>, from: int, end: int)
    requires
        0 <= from <= end,
        is_crlf_at(data, end),
        forall|i: int| from <= i < end ==> !is_crlf_at(data, i),
    ensures
        find_crlf(data, from) == Some(end),
    decreases end - from,
{
    if from < end {
        lemma_find_crlf_at(data, from + 1, end);
    }
}

/// The line that starts at `from` ends where `body` does, when `body` sits
/// at `from`, holds no terminator, and a terminator follows it.
pub proof fn lemma_line_of(data: Seq<u8>, from: int, body: Seq<u8>)
    requires
        0 <= from,
        from + body.len() + 2 <= data.len(),
        data.subrange(from, from + body.len()) == body,
        data[from + body.len()] == CR,
        data[from + body.len() + 1] == LF,
        no_crlf(body),
    ensures
        line_at(data, from) == Some((body, from + body.len() + 2)),
{
    let end = from + body.len();
    assert forall|i: int| from <= i < end implies !is_crlf_at(data, i) by {
        if i + 1 < end {
            assert(data[i] == body[i - from]);
            assert(data[i + 1] == body[i + 1 - from]);
            assert(!is_crlf_at(body, i - from));
        } else {
            assert(data[i + 1] == CR);
        }
    }
    lemma_find_crlf_at(data, from, end);
}

/// A piece of a window of a buffer is a window of the buffer.
pub proof fn lemma_window_piece(data: Seq<u8>, pos: int, bytes: Seq<u8>, off: int, piece: Seq<u8>)
    requires
        0 <= pos,
        0 <= off,
        off + piece.len() <= bytes.len(),
        pos + bytes.len() <= data.len(),
        data.subrange(pos, pos + bytes.len()) == bytes,
        bytes.subrange(off, off + piece.len()) == piece,
    ensures
        data.subrange(pos + off, pos + off + piece.len()) == piece,
{
    assert forall|i: int| 0 <= i < piece.len() implies data[pos + off + i] == piece[i] by {
        assert(data.subrange(pos, pos + bytes.len())[off + i] == bytes[off + i]);
        assert(bytes.subrange(off, off + piece.len())[i] == piece[i]);
    }
    assert(data.subrange(pos + off, pos + off + piece.len()) =~= piece);
}

/// Reading a frame back from its bytes: wherever the bytes of a wire-safe
/// frame stand in a buffer, whatever follows them, the parser reads exactly
/// that frame and moves past exactly its bytes.
pub proof fn lemma_parse_serialized(data: Seq<u8>, pos: int, f: SpecFrame)
    requires
        0 <= pos,
        wire_safe(f),
        pos + serialize(f).len() <= data.len(),
        data.subrange(pos, pos + serialize(f).len()) == serialize(f),
    ensures
        parse_at(data, pos) == Scan::Done(f, serialize(f).len()),
    decreases f, 0nat,
{
    let bytes = serialize(f);
    let p = pos + 1;
    assert(data[pos] == bytes[0]);
    match f {
        SpecFrame::Simple(s) => {
            let e = encode_utf8(s);
            assert(bytes == seq![SIMPLE_HEAD] + e + crlf());
            assert(bytes.subrange(1, 1 + e.len() as int) =~= e);
            lemma_window_piece(data, pos, bytes, 1, e);
            assert(data[p + e.len()] == bytes[1 + e.len() as int]);
            assert(data[p + e.len() + 1] == bytes[2 + e.len() as int]);
            lemma_line_of(data, p, e);
            encode_utf8_valid_utf8(s);
            encode_utf8_decode_utf8(s);
        },
        SpecFrame::ErrorResult(s) => {
            let e = encode_utf8(s);
            assert(bytes == seq![ERROR_HEAD] + e + crlf());
            assert(bytes.subrange(1, 1 + e.len() as int) =~= e);
            lemma_window_piece(data, pos, bytes, 1, e);
            assert(data[p + e.len()] == bytes[1 + e.len() as int]);
            assert(data[p + e.len() + 1] == bytes[2 + e.len() as int]);
            lemma_line_of(data, p, e);
            encode_utf8_valid_utf8(s);
            encode_utf8_decode_utf8(s);
        },
        SpecFrame::Integer(v) => {
            let e = be_bytes_i64(v);
            lemma_i64_be_roundtrip(v);
            assert(bytes.subrange(1, 9) =~= e);
            lemma_window_piece(data, pos, bytes, 1, e);
            assert(data[p + 8] == bytes[9]);
            assert(data[p + 9] == bytes[10]);
            lemma_line_of(data, p, e);
        },
        SpecFrame::Null => {},
        SpecFrame::Bulk(d) => {
            let e = be_bytes_u32(d.len() as u32);
            lemma_u32_be_roundtrip(d.len() as u32);
            assert(bytes.subrange(1, 5) =~= e);
            lemma_window_piece(data, pos, bytes, 1, e);
            assert(data[p + 4] == bytes[5]);
            assert(data[p + 5] == bytes[6]);
            lemma_line_of(data, p, e);
            let q = p + 6;
            assert(bytes.subrange(7, 7 + d.len() as int) =~= d);
            lemma_window_piece(data, pos, bytes, 7, d);
        },
        SpecFrame::Array(fs) => {
            let e = be_bytes_u32(fs.len() as u32);
            lemma_u32_be_roundtrip(fs.len() as u32);
            assert(bytes.subrange(1, 5) =~= e);
            lemma_window_piece(data, pos, bytes, 1, e);
            assert(data[p + 4] == bytes[5]);
            assert(data[p + 5] == bytes[6]);
            lemma_line_of(data, p, e);
            let q = p + 6;
            let body = serialize_seq(fs);
            assert(bytes.subrange(7, 7 + body.len() as int) =~= body);
            lemma_window_piece(data, pos, bytes, 7, body);
            assert(fs.subrange(0, fs.len() as int) =~= fs);
            lemma_parse_seq_serialized(data, q, fs, fs.len());
        },
    }
}

/// Reading `k` frames back from the bytes of the first `k` of `fs`.
pub proof fn lemma_parse_seq_serialized(data: Seq<u8>, pos: int, fs: Seq<SpecFrame>, k: nat)
    requires
        0 <= pos,
        k <= fs.len(),
        forall|i: int| 0 <= i < fs.len() ==> wire_safe(#[trigger] fs[i]),
        pos + serialize_seq(fs.subrange(0, k as int)).len() <= data.len(),
        data.subrange(pos, pos + serialize_seq(fs.subrange(0, k as int)).len()) == serialize_seq(
            fs.subrange(0, k as int),
        ),
    ensures
        parse_seq_at(data, pos, k) == Scan::Done(
            fs.subrange(0, k as int),
            serialize_seq(fs.subrange(0, k as int)).len(),
        ),
    decreases fs, k,
{
    if k == 0 {
        assert(fs.subrange(0, 0) =~= Seq::<SpecFrame>::empty());
    } else {
        let prefix = fs.subrange(0, k as int);
        let shorter = fs.subrange(0, k - 1);
        assert(prefix.subrange(0, prefix.len() - 1) =~= shorter);
        let head_bytes = serialize_seq(shorter);
        let last_bytes = serialize(fs[k - 1]);
        assert(serialize_seq(prefix) == head_bytes + last_bytes);
        let all = serialize_seq(prefix);
        assert(all.subrange(0, head_bytes.len() as int) =~= head_bytes);
        lemma_window_piece(data, pos, all, 0, head_bytes);
        lemma_parse_seq_serialized(data, pos, fs, (k - 1) as nat);
        let at = pos + head_bytes.len();
        assert(all.subrange(head_bytes.len() as int, all.len() as int) =~= last_bytes);
        lemma_window_piece(data, pos, all, head_bytes.len() as int, last_bytes);
        lemma_parse_serialized(data, at, fs[k - 1]);
        assert(shorter.push(fs[k - 1]) =~= prefix);
    }
}

/// Once checking a run of frames stops short, checking more of them stops
/// at the same place.
pub proof fn lemma_check_seq_stuck(data: Seq<u8>, pos: int, k: nat, n: nat)
    requires
        k <= n,
        !(check_seq_at(data, pos, k) is Done),
    ensures
        check_seq_at(data, pos, n) == check_seq_at(data, pos, k),
    decreases n,
{
    if k < n {
        lemma_check_seq_stuck(data, pos, k, (n - 1) as nat);
    }
}

/// Once parsing a run of frames stops short, parsing more of them stops at
/// the same place.
pub proof fn lemma_parse_seq_stuck(data: Seq<u8>, pos: int, k: nat, n: nat)
    requires
        k <= n,
        !(parse_seq_at(data, pos, k) is Done),
    ensures
        parse_seq_at(data, pos, n) == parse_seq_at(data, pos, k),
    decreases n,
{
    if k < n {
        lemma_parse_seq_stuck(data, pos, k, (n - 1) as nat);
    }
}

/// The bytes of a prefix of frames are no longer than those of a longer prefix.
pub proof fn lemma_serialize_seq_prefix_len(fs: Seq<SpecFrame>, k: int, n: int)
    requires
        0 <= k <= n <= fs.len(),
    ensures
        serialize_seq(fs.subrange(0, k)).len() <= serialize_seq(fs.subrange(0, n)).len(),
    decreases n - k,
{
    if k < n {
        lemma_serialize_seq_prefix_len(fs, k, n - 1);
        assert(fs.subrange(0, n).subrange(0, n - 1) =~= fs.subrange(0, n - 1));
    }
}

/// The completeness check reads the bytes of a check-safe frame to their
/// end, wherever they stand and whatever follows them.
pub proof fn lemma_check_serialized(data: Seq<u8>, pos: int, f: SpecFrame)
    requires
        0 <= pos,
        check_safe(f),
        pos + serialize(f).len() <= data.len(),
        data.subrange(pos, pos + serialize(f).len()) == serialize(f),
    ensures
        check_at(data, pos) == Scan::<()>::Done((), serialize(f).len()),
    decreases f, 0nat,
{
    let bytes = serialize(f);
    let p = pos + 1;
    assert(data[pos] == bytes[0]);
    match f {
        SpecFrame::Simple(s) => {
            let e = encode_utf8(s);
            assert(bytes.subrange(1, 1 + e.len() as int) =~= e);
            lemma_window_piece(data, pos, bytes, 1, e);
            assert(data[p + e.len()] == bytes[1 + e.len() as int]);
            assert(data[p + e.len() + 1] == bytes[2 + e.len() as int]);
            lemma_line_of(data, p, e);
        },
        SpecFrame::Null => {},
        SpecFrame::Bulk(d) => {
            let e = be_bytes_u32(d.len() as u32);
            lemma_u32_be_roundtrip(d.len() as u32);
            assert(bytes.subrange(1, 5) =~= e);
            lemma_window_piece(data, pos, bytes, 1, e);
            assert(data[p + 4] == bytes[5]);
            assert(data[p + 5] == bytes[6]);
            lemma_line_of(data, p, e);
            let q = p + 6;
            assert(bytes.subrange(7, 7 + d.len() as int) =~= d);
            lemma_window_piece(data, pos, bytes, 7, d);
            assert(data[q + d.len()] == bytes[7 + d.len() as int]);
            assert(data[q + d.len() + 1] == bytes[8 + d.len() as int]);
            lemma_line_of(data, q, d);
        },
        SpecFrame::Array(fs) => {
            let e = be_bytes_u32(fs.len() as u32);
            lemma_u32_be_roundtrip(fs.len() as u32);
            assert(bytes.subrange(1, 5) =~= e);
            lemma_window_piece(data, pos, bytes, 1, e);
            assert(data[p + 4] == bytes[5]);
            assert(data[p + 5] == bytes[6]);
            lemma_line_of(data, p, e);
            let q = p + 6;
            let body = serialize_seq(fs);
            assert(bytes.subrange(7, 7 + body.len() as int) =~= body);
            lemma_window_piece(data, pos, bytes, 7, body);
            assert(fs.subrange(0, fs.len() as int) =~= fs);
            lemma_check_seq_serialized(data, q, fs, fs.len());
        },
        _ => {},
    }
}

/// The completeness check reads the bytes of the first `k` of a run of
/// check-safe frames to their end.
pub proof fn lemma_check_seq_serialized(data: Seq<u8>, pos: int, fs: Seq<SpecFrame>, k: nat)
    requires
        0 <= pos,
        k <= fs.len(),
        forall|i: int| 0 <= i < fs.len() ==> check_safe(#[trigger] fs[i]),
        pos + serialize_seq(fs.subrange(0, k as int)).len() <= data.len(),
        data.subrange(pos, pos + serialize_seq(fs.subrange(0, k as int)).len()) == serialize_seq(
            fs.subrange(0, k as int),
        ),
    ensures
        check_seq_at(data, pos, k) == Scan::<()>::Done((), serialize_seq(fs.subrange(0, k as int)).len()),
    decreases fs, k,
{
    if k > 0 {
        let prefix = fs.subrange(0, k as int);
        let shorter = fs.subrange(0, k - 1);
        assert(prefix.subrange(0, prefix.len() - 1) =~= shorter);
        let head_bytes = serialize_seq(shorter);
        let last_bytes = serialize(fs[k - 1]);
        assert(serialize_seq(prefix) == head_bytes + last_bytes);
        let all = serialize_seq(prefix);
        assert(all.subrange(0, head_bytes.len() as int) =~= head_bytes);
        lemma_window_piece(data, pos, all, 0, head_bytes);
        lemma_check_seq_serialized(data, pos, fs, (k - 1) as nat);
        assert(all.subrange(head_bytes.len() as int, all.len() as int) =~= last_bytes);
        lemma_window_piece(data, pos, all, head_bytes.len() as int, last_bytes);
        lemma_check_serialized(data, pos + head_bytes.len(), fs[k - 1]);
    }
}

/// The terminator found from `from` is the first one at or after `from`.
pub proof fn lemma_find_crlf_first(data: Seq<u8>, from: int)
    ensures
        find_crlf(data, from) matches Some(i) ==> from <= i && is_crlf_at(data, i) && forall|j: int|
            from <= j < i ==> !is_crlf_at(data, j),
    decreases data.len() - from,
{
    if from >= 0 && from + 1 < data.len() && !is_crlf_at(data, from) {
        lemma_find_crlf_first(data, from + 1);
    }
}

/// A line holds no terminator, and the terminator that ends it comes right
/// after it.
pub proof fn lemma_line_has_no_crlf(data: Seq<u8>, pos: int)
    requires
        0 <= pos,
    ensures
        line_at(data, pos) matches Some((l, q)) ==> no_crlf(l) && q == pos + l.len() + 2
            && data.subrange(q - 2, q) == crlf(),
{
    lemma_find_crlf_first(data, pos);
    if let Some((l, q)) = line_at(data, pos) {
        let i = q - 2;
        assert forall|j: int| 0 <= j implies !is_crlf_at(l, j) by {
            if is_crlf_at(l, j) {
                assert(l[j] == data[pos + j]);
                assert(l[j + 1] == data[pos + j + 1]);
                assert(is_crlf_at(data, pos + j));
            }
        }
        assert(data.subrange(q - 2, q) =~= crlf());
    }
}

/// Reading a whole frame always moves past at least its head byte and a
/// terminator's worth of bytes, so a reader that takes frame after frame
/// keeps moving forward.
pub proof fn lemma_reading_moves_forward(data: Seq<u8>, pos: int)
    ensures
        parse_at(data, pos) matches Scan::Done(_, c) ==> c >= 3,
        check_at(data, pos) matches Scan::Done(_, c) ==> c >= 3,
{
    if 0 <= pos < data.len() {
        crate::wire::lemma_find_crlf_bounds(data, pos + 1);
        crate::wire::lemma_find_crlf_bounds(data, pos + 2);
        if let Some((_, q)) = line_at(data, pos + 1) {
            crate::wire::lemma_find_crlf_bounds(data, q);
        }
    }
}

/// No line ends in what is left of a buffer when that rest is a strict start
/// of a terminator-free `body` followed by a terminator.
pub proof fn lemma_no_line_in_cut(data: Seq<u8>, from: int, body: Seq<u8>)
    requires
        0 <= from <= data.len(),
        data.len() - from <= body.len() + 1,
        no_crlf(body),
        forall|r: int| 0 <= r < data.len() - from ==> data[from + r] == (body + crlf())[r],
    ensures
        line_at(data, from) is None,
{
    assert forall|i: int| from <= i implies !is_crlf_at(data, i) by {
        if is_crlf_at(data, i) {
            let r = i - from;
            assert(data[from + r] == (body + crlf())[r]);
            assert(data[from + r + 1] == (body + crlf())[r + 1]);
            if r + 1 < body.len() {
                assert(is_crlf_at(body, r));
            }
        }
    }
    crate::frame::lemma_find_crlf_none(data, from);
}

/// The completeness check fails, and does not panic, on a buffer that ends
/// inside the bytes of a check-safe frame without null frames.
pub proof fn lemma_check_cut_fails(data: Seq<u8>, pos: int, f: SpecFrame)
    requires
        0 <= pos <= data.len(),
        check_safe(f),
        null_free(f),
        data.len() < pos + serialize(f).len(),
        forall|r: int| 0 <= r < data.len() - pos ==> data[pos + r] == serialize(f)[r],
    ensures
        check_at(data, pos) is Fail,
    decreases f, 0nat,
{
    let bytes = serialize(f);
    if pos == data.len() {
        return;
    }
    assert(data[pos] == bytes[0]);
    let p = pos + 1;
    match f {
        SpecFrame::Simple(s) => {
            let e = encode_utf8(s);
            assert forall|r: int| 0 <= r < data.len() - p implies data[p + r] == (e + crlf())[r] by {
                assert(data[pos + (r + 1)] == bytes[r + 1]);
            }
            lemma_no_line_in_cut(data, p, e);
        },
        SpecFrame::Bulk(d) => {
            let e = be_bytes_u32(d.len() as u32);
            lemma_u32_be_roundtrip(d.len() as u32);
            if data.len() < p + 6 {
                assert forall|r: int| 0 <= r < data.len() - p implies data[p + r] == (e + crlf())[r] by {
                    assert(data[pos + (r + 1)] == bytes[r + 1]);
                }
                lemma_no_line_in_cut(data, p, e);
            } else {
                assert(data.subrange(p, p + 4) =~= e) by {
                    assert forall|r: int| 0 <= r < 4 implies data.subrange(p, p + 4)[r] == e[r] by {
                        assert(data[pos + (r + 1)] == bytes[r + 1]);
                    }
                }
                assert(data[p + 4] == bytes[5]);
                assert(data[p + 5] == bytes[6]);
                lemma_line_of(data, p, e);
                let q = p + 6;
                assert forall|r: int| 0 <= r < data.len() - q implies data[q + r] == (d + crlf())[r] by {
                    assert(data[pos + (r + 7)] == bytes[r + 7]);
                }
                lemma_no_line_in_cut(data, q, d);
            }
        },
        SpecFrame::Array(fs) => {
            let e = be_bytes_u32(fs.len() as u32);
            lemma_u32_be_roundtrip(fs.len() as u32);
            if data.len() < p + 6 {
                assert forall|r: int| 0 <= r < data.len() - p implies data[p + r] == (e + crlf())[r] by {
                    assert(data[pos + (r + 1)] == bytes[r + 1]);
                }
                lemma_no_line_in_cut(data, p, e);
            } else {
                assert(data.subrange(p, p + 4) =~= e) by {
                    assert forall|r: int| 0 <= r < 4 implies data.subrange(p, p + 4)[r] == e[r] by {
                        assert(data[pos + (r + 1)] == bytes[r + 1]);
                    }
                }
                assert(data[p + 4] == bytes[5]);
                assert(data[p + 5] == bytes[6]);
                lemma_line_of(data, p, e);
                let q = p + 6;
                let body = serialize_seq(fs);
                assert(fs.subrange(0, fs.len() as int) =~= fs);
                assert forall|r: int| 0 <= r < data.len() - q implies data[q + r] == body[r] by {
                    assert(data[pos + (r + 7)] == bytes[r + 7]);
                }
                lemma_check_seq_cut_fails(data, q, fs, fs.len());
            }
        },
        _ => {},
    }
}

/// The completeness check of `k` frames fails on a buffer that ends inside
/// the bytes of the first `k` of a run of check-safe frames without null
/// frames.
pub proof fn lemma_check_seq_cut_fails(data: Seq<u8>, pos: int, fs: Seq<SpecFrame>, k: nat)
    requires
        0 <= pos <= data.len(),
        k <= fs.len(),
        forall|i: int| 0 <= i < fs.len() ==> check_safe(#[trigger] fs[i]),
        forall|i: int| 0 <= i < fs.len() ==> null_free(#[trigger] fs[i]),
        data.len() < pos + serialize_seq(fs.subrange(0, k as int)).len(),
        forall|r: int|
            0 <= r < data.len() - pos ==> data[pos + r] == serialize_seq(fs.subrange(0, k as int))[r],
    ensures
        check_seq_at(data, pos, k) is Fail,
    decreases fs, k,
{
    let prefix = fs.subrange(0, k as int);
    let shorter = fs.subrange(0, k - 1);
    assert(prefix.subrange(0, prefix.len() - 1) =~= shorter);
    let all = serialize_seq(prefix);
    let head_bytes = serialize_seq(shorter);
    let last_bytes = serialize(fs[k - 1]);
    assert(all == head_bytes + last_bytes);
    if data.len() < pos + head_bytes.len() {
        assert forall|r: int| 0 <= r < data.len() - pos implies data[pos + r] == head_bytes[r] by {
            assert(data[pos + r] == all[r]);
        }
        lemma_check_seq_cut_fails(data, pos, fs, (k - 1) as nat);
    } else {
        assert(data.subrange(pos, pos + head_bytes.len()) =~= head_bytes) by {
            assert forall|r: int| 0 <= r < head_bytes.len() implies data.subrange(pos, pos + head_bytes.len())[r] == head_bytes[r] by {
                assert(data[pos + r] == all[r]);
            }
        }
        lemma_check_seq_serialized(data, pos, fs, (k - 1) as nat);
        let at = pos + head_bytes.len();
        assert forall|r: int| 0 <= r < data.len() - at implies data[at + r] == last_bytes[r] by {
            assert(data[pos + (head_bytes.len() + r)] == all[head_bytes.len() + r]);
        }
        lemma_check_cut_fails(data, at, fs[k - 1]);
    }
}

/// A terminator at or after `from` means one is found from `from`.
pub proof fn lemma_find_crlf_reaches(data: Seq<u8>, from: int, at: int)
    requires
        0 <= from <= at,
        is_crlf_at(data, at),
    ensures
        find_crlf(data, from) is Some,
    decreases at - from,
{
    if !is_crlf_at(data, from) {
        lemma_find_crlf_reaches(data, from + 1, at);
    }
}

/// The completeness check passes on the bytes of a whole frame, wherever
/// they stand and whatever follows them, when the frame is one the check
/// passes: in particular on every bulk string whose length bytes hold no
/// terminator, whatever its data holds.
pub proof fn lemma_check_passes(data: Seq<u8>, pos: int, f: SpecFrame)
    requires
        0 <= pos,
        check_passes(f),
        pos + serialize(f).len() <= data.len(),
        data.subrange(pos, pos + serialize(f).len()) == serialize(f),
    ensures
        check_at(data, pos) is Done,
    decreases f,
{
    let bytes = serialize(f);
    let p = pos + 1;
    assert(data[pos] == bytes[0]);
    match f {
        SpecFrame::Bulk(d) => {
            let e = be_bytes_u32(d.len() as u32);
            lemma_u32_be_roundtrip(d.len() as u32);
            assert(bytes.subrange(1, 5) =~= e);
            lemma_window_piece(data, pos, bytes, 1, e);
            assert(data[p + 4] == bytes[5]);
            assert(data[p + 5] == bytes[6]);
            lemma_line_of(data, p, e);
            let q = p + 6;
            assert(data[q + d.len()] == bytes[7 + d.len() as int]);
            assert(data[q + d.len() + 1] == bytes[8 + d.len() as int]);
            lemma_find_crlf_reaches(data, q, q + d.len());
        },
        SpecFrame::Array(fs) => {
            if fs.len() == 0 {
                lemma_check_serialized(data, pos, f);
            } else {
                let n = fs.len();
                let e = be_bytes_u32(n as u32);
                lemma_u32_be_roundtrip(n as u32);
                assert(bytes.subrange(1, 5) =~= e);
                lemma_window_piece(data, pos, bytes, 1, e);
                assert(data[p + 4] == bytes[5]);
                assert(data[p + 5] == bytes[6]);
                lemma_line_of(data, p, e);
                let q = p + 6;
                let body = serialize_seq(fs);
                assert(bytes.subrange(7, 7 + body.len() as int) =~= body);
                lemma_window_piece(data, pos, bytes, 7, body);
                let head = fs.subrange(0, n - 1);
                let last = fs[n - 1];
                assert(fs.subrange(0, n - 1) =~= head);
                assert(body == serialize_seq(head) + serialize(last));
                let hb = serialize_seq(head);
                assert(head.subrange(0, head.len() as int) =~= head);
                assert forall|i: int| 0 <= i < head.len() implies check_safe(#[trigger] head[i]) by {
                    assert(head[i] == fs[i]);
                }
                assert(body.subrange(0, hb.len() as int) =~= hb);
                lemma_window_piece(data, q, body, 0, hb);
                lemma_check_seq_serialized(data, q, head, (n - 1) as nat);
                let lb = serialize(last);
                assert(body.subrange(hb.len() as int, body.len() as int) =~= lb);
                lemma_window_piece(data, q, body, hb.len() as int, lb);
                assert(decreases_to!(f => fs));
                assert(decreases_to!(fs => fs[n - 1]));
                lemma_check_passes(data, q + hb.len(), last);
                assert(check_seq_at(data, q, n as nat) is Done);
            }
        },
        _ => {
            lemma_check_serialized(data, pos, f);
        },
    }
}

} // verus!
