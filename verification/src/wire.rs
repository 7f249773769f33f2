//! The wire format of frames, as mathematical functions on byte sequences:
//! where a line ends, what the completeness check and the parser read at a
//! position, and what the serializer writes.

use crate::error::FrameError;
use crate::ext::{be_bytes_i64, be_bytes_u32, i64_from_be, u32_from_be};
use vstd::prelude::*;
use vstd::utf8::*;

verus! {

/// Head byte of a simple string (`+`).
pub const SIMPLE_HEAD: u8 = 43;

/// Head byte of an integer (`:`).
pub const INTEGER_HEAD: u8 = 58;

/// Head byte of the null frame (`_`).
pub const NULL_HEAD: u8 = 95;

/// Head byte of an error string (`-`).
pub const ERROR_HEAD: u8 = 45;

/// Head byte of a bulk string (`$`).
pub const BULK_HEAD: u8 = 36;

/// Head byte of an array (`*`).
pub const ARRAY_HEAD: u8 = 42;

/// Carriage return.
pub const CR: u8 = 13;

/// Line feed.
pub const LF: u8 = 10;

/// A frame as a mathematical value.
pub enum SpecFrame {
    Simple(Seq<char>),
    Integer(i64),
    Null,
    ErrorResult(Seq<char>),
    Bulk(Seq<u8>),
    Array(Seq<SpecFrame>),
}

/// What reading at a position gives: a value and how many bytes the read
/// position moved, an error and how far the position had moved when it was
/// raised, or `Abort` where the reading code panics.
pub enum Scan<T> {
    Done(T, nat),
    Fail(FrameError, nat),
    Abort,
}

impl<T> Scan<T> {
    pub open spec fn aborts(self) -> bool {
        self is Abort
    }
}

/// The line terminator.
pub open spec fn crlf() -> Seq<u8> {
    seq![CR, LF]
}

/// A line terminator starts at index `i` of `data`.
pub open spec fn is_crlf_at(data: Seq<u8>, i: int) -> bool {
    0 <= i && i + 1 < data.len() && data[i] == CR && data[i + 1] == LF
}

/// The first index at or after `from` where a line terminator starts.
pub open spec fn find_crlf(data: Seq<u8>, from: int) -> Option<int>
    decreases data.len() - from,
{
    if from < 0 || from + 1 >= data.len() {
        None
    } else if is_crlf_at(data, from) {
        Some(from)
    } else {
        find_crlf(data, from + 1)
    }
}

/// No line terminator occurs inside `s`.
pub open spec fn no_crlf(s: Seq<u8>) -> bool {
    forall|i: int| 0 <= i ==> !is_crlf_at(s, i)
}

/// The line that starts at `pos`: its bytes and the position just after
/// its terminator.
pub open spec fn line_at(data: Seq<u8>, pos: int) -> Option<(Seq<u8>, int)> {
    match find_crlf(data, pos) {
        Some(i) => Some((data.subrange(pos, i), i + 2)),
        None => None,
    }
}

/// How many bytes are left from `pos`; the measure by which reading ends.
pub open spec fn room(data: Seq<u8>, pos: int) -> nat {
    if pos < 0 {
        data.len()
    } else if pos < data.len() {
        (data.len() - pos) as nat
    } else {
        0
    }
}

pub proof fn lemma_find_crlf_bounds(data: Seq<u8>, from: int)
    ensures
        find_crlf(data, from) matches Some(i) ==> from <= i && is_crlf_at(data, i),
    decreases data.len() - from,
{
    if from < 0 || from + 1 >= data.len() {
    } else if is_crlf_at(data, from) {
    } else {
        lemma_find_crlf_bounds(data, from + 1);
    }
}

/// What `Frame::parse` reads at `pos`.
pub open spec fn parse_at(data: Seq<u8>, pos: int) -> Scan<SpecFrame>
    decreases room(data, pos), 0nat,
{
    if pos < 0 || pos >= data.len() {
        Scan::Fail(FrameError::NoData, 0)
    } else {
        let head = data[pos];
        let p = pos + 1;
        proof {
            lemma_find_crlf_bounds(data, p);
        }
        if head == SIMPLE_HEAD || head == ERROR_HEAD {
            match line_at(data, p) {
                None => Scan::Fail(FrameError::NoLine, 1),
                Some((l, q)) => if valid_utf8(l) {
                    if head == SIMPLE_HEAD {
                        Scan::Done(SpecFrame::Simple(decode_utf8(l)), (q - pos) as nat)
                    } else {
                        Scan::Done(SpecFrame::ErrorResult(decode_utf8(l)), (q - pos) as nat)
                    }
                } else {
                    Scan::Fail(FrameError::InvalidUtf8, (q - pos) as nat)
                },
            }
        } else if head == INTEGER_HEAD {
            match line_at(data, p) {
                None => Scan::Fail(FrameError::NoLine, 1),
                Some((l, q)) => if l.len() < 8 {
                    Scan::Abort
                } else {
                    Scan::Done(SpecFrame::Integer(i64_from_be(l)), (q - pos) as nat)
                },
            }
        } else if head == NULL_HEAD {
            Scan::Done(SpecFrame::Null, 3)
        } else if head == BULK_HEAD {
            match line_at(data, p) {
                None => Scan::Fail(FrameError::NoLine, 1),
                Some((l, q)) => if l.len() < 4 {
                    Scan::Abort
                } else {
                    let n = u32_from_be(l) as int;
                    if q + n > data.len() {
                        Scan::Abort
                    } else {
                        Scan::Done(SpecFrame::Bulk(data.subrange(q, q + n)), (q + n + 2 - pos) as nat)
                    }
                },
            }
        } else if head == ARRAY_HEAD {
            match line_at(data, p) {
                None => Scan::Fail(FrameError::NoLine, 1),
                Some((l, q)) => if l.len() < 4 {
                    Scan::Abort
                } else {
                    match parse_seq_at(data, q, u32_from_be(l) as nat) {
                        Scan::Done(fs, c) => Scan::Done(SpecFrame::Array(fs), (q + c - pos) as nat),
                        Scan::Fail(e, c) => Scan::Fail(e, (q + c - pos) as nat),
                        Scan::Abort => Scan::Abort,
                    }
                },
            }
        } else {
            Scan::Fail(FrameError::InvalidHead, 1)
        }
    }
}

/// What parsing `n` frames one after the other from `pos` reads.
pub open spec fn parse_seq_at(data: Seq<u8>, pos: int, n: nat) -> Scan<Seq<SpecFrame>>
    decreases room(data, pos), n,
{
    if n == 0 {
        Scan::Done(Seq::empty(), 0)
    } else {
        match parse_seq_at(data, pos, (n - 1) as nat) {
            Scan::Done(fs, c) => match parse_at(data, pos + c) {
                Scan::Done(f, c2) => Scan::Done(fs.push(f), c + c2),
                Scan::Fail(e, c2) => Scan::Fail(e, c + c2),
                Scan::Abort => Scan::Abort,
            },
            Scan::Fail(e, c) => Scan::Fail(e, c),
            Scan::Abort => Scan::Abort,
        }
    }
}

/// What `Frame::check` reads at `pos`.
pub open spec fn check_at(data: Seq<u8>, pos: int) -> Scan<()>
    decreases room(data, pos), 0nat,
{
    if pos < 0 || pos >= data.len() {
        Scan::Fail(FrameError::NoData, 0)
    } else {
        let head = data[pos];
        let p = pos + 1;
        proof {
            lemma_find_crlf_bounds(data, p);
        }
        if head == SIMPLE_HEAD {
            match line_at(data, p) {
                None => Scan::Fail(FrameError::NoLine, 1),
                Some((_, q)) => Scan::Done((), (q - pos) as nat),
            }
        } else if head == INTEGER_HEAD {
            if p >= data.len() {
                Scan::Fail(FrameError::NoData, 1)
            } else {
                match line_at(data, p + 1) {
                    None => Scan::Fail(FrameError::NoLine, 2),
                    Some((l, q)) => if l.len() < 8 {
                        Scan::Abort
                    } else {
                        Scan::Done((), (q - pos) as nat)
                    },
                }
            }
        } else if head == NULL_HEAD {
            Scan::Done((), 3)
        } else if head == ERROR_HEAD {
            match line_at(data, p) {
                None => Scan::Fail(FrameError::NoLine, 1),
                Some((_, q)) => match line_at(data, q) {
                    None => Scan::Fail(FrameError::NoLine, (q - pos) as nat),
                    Some((_, q2)) => Scan::Done((), (q2 - pos) as nat),
                },
            }
        } else if head == BULK_HEAD {
            match line_at(data, p) {
                None => Scan::Fail(FrameError::NoLine, 1),
                Some((l, q)) => if l.len() < 4 {
                    Scan::Abort
                } else {
                    match line_at(data, q) {
                        None => Scan::Fail(FrameError::NoLine, (q - pos) as nat),
                        Some((_, q2)) => Scan::Done((), (q2 - pos) as nat),
                    }
                },
            }
        } else if head == ARRAY_HEAD {
            match line_at(data, p) {
                None => Scan::Fail(FrameError::CheckFailed, 1),
                Some((l, q)) => if l.len() < 4 {
                    Scan::Abort
                } else {
                    match check_seq_at(data, q, u32_from_be(l) as nat) {
                        Scan::Done(_, c) => Scan::Done((), (q + c - pos) as nat),
                        Scan::Fail(e, c) => Scan::Fail(e, (q + c - pos) as nat),
                        Scan::Abort => Scan::Abort,
                    }
                },
            }
        } else {
            Scan::Fail(FrameError::CheckFailed, 1)
        }
    }
}

/// What checking `n` frames one after the other from `pos` reads.
pub open spec fn check_seq_at(data: Seq<u8>, pos: int, n: nat) -> Scan<()>
    decreases room(data, pos), n,
{
    if n == 0 {
        Scan::Done((), 0)
    } else {
        match check_seq_at(data, pos, (n - 1) as nat) {
            Scan::Done(_, c) => match check_at(data, pos + c) {
                Scan::Done(_, c2) => Scan::Done((), c + c2),
                Scan::Fail(e, c2) => Scan::Fail(e, c + c2),
                Scan::Abort => Scan::Abort,
            },
            Scan::Fail(e, c) => Scan::Fail(e, c),
            Scan::Abort => Scan::Abort,
        }
    }
}

/// The bytes `Frame::parse_frame_to_bytes` writes for a frame.
pub open spec fn serialize(f: SpecFrame) -> Seq<u8>
    decreases f,
{
    match f {
        SpecFrame::Simple(s) => seq![SIMPLE_HEAD] + encode_utf8(s) + crlf(),
        SpecFrame::Integer(v) => seq![INTEGER_HEAD] + be_bytes_i64(v) + crlf(),
        SpecFrame::Null => seq![NULL_HEAD] + crlf(),
        SpecFrame::ErrorResult(s) => seq![ERROR_HEAD] + encode_utf8(s) + crlf(),
        SpecFrame::Bulk(d) => seq![BULK_HEAD] + be_bytes_u32(d.len() as u32) + crlf() + d + crlf(),
        SpecFrame::Array(fs) => seq![ARRAY_HEAD] + be_bytes_u32(fs.len() as u32) + crlf()
            + serialize_seq(fs),
    }
}

/// The bytes of several frames written one after the other.
pub open spec fn serialize_seq(fs: Seq<SpecFrame>) -> Seq<u8>
    decreases fs,
{
    if fs.len() == 0 {
        Seq::empty()
    } else {
        serialize_seq(fs.subrange(0, fs.len() - 1)) + serialize(fs[fs.len() - 1])
    }
}

/// A frame whose bytes read back as the same frame: no line terminator
/// hides inside a string, an integer or a length, and every length fits
/// the four bytes it is written in.
pub open spec fn wire_safe(f: SpecFrame) -> bool
    decreases f,
{
    match f {
        SpecFrame::Simple(s) => no_crlf(encode_utf8(s)),
        SpecFrame::Integer(v) => no_crlf(be_bytes_i64(v)),
        SpecFrame::Null => true,
        SpecFrame::ErrorResult(s) => no_crlf(encode_utf8(s)),
        SpecFrame::Bulk(d) => d.len() <= u32::MAX && no_crlf(be_bytes_u32(d.len() as u32)),
        SpecFrame::Array(fs) => {
            &&& fs.len() <= u32::MAX
            &&& no_crlf(be_bytes_u32(fs.len() as u32))
            &&& forall|i: int| 0 <= i < fs.len() ==> wire_safe(#[trigger] fs[i])
        },
    }
}

/// A frame whose bytes the completeness check reads to their end: simple
/// strings and bulk data hold no line terminator, lengths hold none, and
/// there are no integers or error strings, which the check reads otherwise
/// than they are written.
pub open spec fn check_safe(f: SpecFrame) -> bool
    decreases f,
{
    match f {
        SpecFrame::Simple(s) => no_crlf(encode_utf8(s)),
        SpecFrame::Integer(_) => false,
        SpecFrame::Null => true,
        SpecFrame::ErrorResult(_) => false,
        SpecFrame::Bulk(d) => no_crlf(be_bytes_u32(d.len() as u32)) && no_crlf(d),
        SpecFrame::Array(fs) => {
            &&& fs.len() <= u32::MAX
            &&& no_crlf(be_bytes_u32(fs.len() as u32))
            &&& forall|i: int| 0 <= i < fs.len() ==> check_safe(#[trigger] fs[i])
        },
    }
}

/// A frame whose bytes the completeness check passes, whatever follows
/// them: as for a check-safe frame, except that the data of a bulk string
/// may hold line terminators where nothing of its frame follows it (the
/// check then stops at the first of them, and the parser still reads the
/// data by its length), and integers and error strings may not stand there.
pub open spec fn check_passes(f: SpecFrame) -> bool
    decreases f,
{
    match f {
        SpecFrame::Bulk(d) => no_crlf(be_bytes_u32(d.len() as u32)),
        SpecFrame::Array(fs) => {
            &&& fs.len() <= u32::MAX
            &&& no_crlf(be_bytes_u32(fs.len() as u32))
            &&& forall|i: int| 0 <= i < fs.len() - 1 ==> check_safe(#[trigger] fs[i])
            &&& fs.len() > 0 ==> check_passes(fs[fs.len() - 1])
        },
        _ => check_safe(f),
    }
}

/// A frame with no null frame anywhere in it.
pub open spec fn null_free(f: SpecFrame) -> bool
    decreases f,
{
    match f {
        SpecFrame::Null => false,
        SpecFrame::Array(fs) => forall|i: int| 0 <= i < fs.len() ==> null_free(#[trigger] fs[i]),
        _ => true,
    }
}

} // verus!
