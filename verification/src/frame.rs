//! Frames, the unit of the wire protocol, and reading and writing them.

use crate::cursor::Cursor;
use crate::error::FrameError;
use crate::ext::{
    buf_put_i64, buf_put_u32, buf_put_u8, i64_from_be, u32_from_be,
};
use crate::ext::{be_bytes_i64, string_from_utf8};
use crate::wire::{
    check_at, check_seq_at, crlf, find_crlf, parse_at, parse_seq_at, serialize, serialize_seq, is_crlf_at, line_at, room, Scan, SpecFrame, ARRAY_HEAD,
    BULK_HEAD, CR, ERROR_HEAD, INTEGER_HEAD, LF, NULL_HEAD, SIMPLE_HEAD,
};
use crate::wire_laws::{lemma_check_seq_stuck, lemma_parse_seq_stuck};
use vstd::prelude::*;

verus! {

/// A frame of the wire protocol.
#[derive(Debug)]
pub enum Frame {
    Simple(String),
    Integer(i64),
    Null,
    ErrorResult(String),
    Bulk(Vec<u8>),
    Array(Vec<Frame>),
}

/// The mathematical value of a frame.
pub open spec fn frame_view(f: Frame) -> SpecFrame
    decreases f,
{
    match f {
        Frame::Simple(s) => SpecFrame::Simple(s@),
        Frame::Integer(v) => SpecFrame::Integer(v),
        Frame::Null => SpecFrame::Null,
        Frame::ErrorResult(s) => SpecFrame::ErrorResult(s@),
        Frame::Bulk(b) => SpecFrame::Bulk(b@),
        Frame::Array(v) => SpecFrame::Array(frames_view(v@)),
    }
}

/// The mathematical values of a sequence of frames.
pub open spec fn frames_view(v: Seq<Frame>) -> Seq<SpecFrame>
    decreases v,
{
    if v.len() == 0 {
        Seq::empty()
    } else {
        frames_view(v.subrange(0, v.len() - 1)).push(frame_view(v[v.len() - 1]))
    }
}

impl View for Frame {
    type V = SpecFrame;

    open spec fn view(&self) -> SpecFrame {
        frame_view(*self)
    }
}

/// The `u32` whose big-endian bytes are the first four of `line`, as
/// `u32::from_be_bytes` reads them.
fn u32_from_be_bytes(line: &[u8]) -> (n: u32)
    requires
        line@.len() >= 4,
    ensures
        n == u32_from_be(line@),
{
    ((line[0] as u32) << 24u32) | ((line[1] as u32) << 16u32) | ((line[2] as u32) << 8u32) | (
    line[3] as u32)
}

/// The `i64` whose two's-complement big-endian bytes are the first eight of
/// `line`, as `i64::from_be_bytes` reads them.
fn i64_from_be_bytes(line: &[u8]) -> (n: i64)
    requires
        line@.len() >= 8,
    ensures
        n == i64_from_be(line@),
{
    let u: u64 = ((line[0] as u64) << 56u64) | ((line[1] as u64) << 48u64) | ((line[2] as u64)
        << 40u64) | ((line[3] as u64) << 32u64) | ((line[4] as u64) << 24u64) | ((line[5] as u64)
        << 16u64) | ((line[6] as u64) << 8u64) | (line[7] as u64);
    u as i64
}

/// Each frame of a sequence has its own value at the same index.
pub proof fn lemma_frames_view(v: Seq<Frame>)
    ensures
        frames_view(v).len() == v.len(),
        forall|i: int| 0 <= i < v.len() ==> #[trigger] frames_view(v)[i] == frame_view(v[i]),
    decreases v.len(),
{
    if v.len() > 0 {
        lemma_frames_view(v.subrange(0, v.len() - 1));
    }
}

/// No terminator at or after `from` means none is found.
pub proof fn lemma_find_crlf_none(data: Seq<u8>, from: int)
    requires
        0 <= from,
        forall|i: int| from <= i ==> !is_crlf_at(data, i),
    ensures
        find_crlf(data, from) is None,
    decreases data.len() - from,
{
    if from + 1 < data.len() {
        lemma_find_crlf_none(data, from + 1);
    }
}

/// Reads one byte and moves past it; fails with `NoData`, without
/// moving, when no byte is left.
pub fn get_u8(src: &mut Cursor) -> (r: Result<u8, FrameError>)
    ensures
        final(src).bytes() == old(src).bytes(),
        old(src).pos() < old(src).bytes().len() ==> r == Ok::<u8, FrameError>(
            old(src).bytes()[old(src).pos()],
        ) && final(src).pos() == old(src).pos() + 1,
        old(src).pos() >= old(src).bytes().len() ==> r == Err::<u8, FrameError>(FrameError::NoData)
            && final(src).pos() == old(src).pos(),
{
    if src.remaining() == 0 {
        return Err(FrameError::NoData);
    }
    let pos = src.position();
    let b = src.get_ref()[pos as usize];
    src.set_position(pos + 1);
    Ok(b)
}

/// Moves the read position two bytes on, past a line terminator, without
/// looking at them.
pub fn skip(src: &mut Cursor)
    requires
        old(src).pos() + 2 <= u64::MAX,
    ensures
        final(src).bytes() == old(src).bytes(),
        final(src).pos() == old(src).pos() + 2,
{
    let index = src.position();
    src.set_position(index + 2);
}

/// Reads the line that starts at the read position: the bytes before the
/// first `\r\n`, moving past the terminator. Fails with `NoLine`, without
/// moving, when no terminator follows.
///
/// The buffer must not be empty (the search bound `len - 1` would overflow).
pub fn get_line<'a>(src: &mut Cursor<'a>) -> (r: Result<&'a [u8], FrameError>)
    requires
        old(src).bytes().len() > 0,
    ensures
        final(src).bytes() == old(src).bytes(),
        match line_at(old(src).bytes(), old(src).pos()) {
            Some((l, q)) => r matches Ok(s) && s@ == l && final(src).pos() == q,
            None => r matches Err(e) && e == FrameError::NoLine && final(src).pos() == old(
                src,
            ).pos(),
        },
{
    let pos = src.position();
    let data = src.get_ref();
    let end = data.len();
    if pos >= end as u64 {
        proof {
            lemma_find_crlf_none(data@, pos as int);
        }
        return Err(FrameError::NoLine);
    }
    let mut start = pos as usize;
    while start < end - 1
        invariant
            pos <= start <= end,
            end == data@.len(),
            end > 0,
            data@ == src.bytes(),
            src.bytes() == old(src).bytes(),
            src.pos() == pos,
            old(src).pos() == pos,
            forall|i: int| pos <= i < start ==> !is_crlf_at(data@, i),
        decreases end - start,
    {
        if data[start] == CR && data[start + 1] == LF {
            proof {
                crate::wire_laws::lemma_find_crlf_at(data@, pos as int, start as int);
            }
            let line = vstd::slice::slice_subrange(data, pos as usize, start);
            src.set_position((start + 2) as u64);
            return Ok(line);
        }
        start += 1;
    }
    proof {
        lemma_find_crlf_none(data@, pos as int);
    }
    Err(FrameError::NoLine)
}

/// Reads a line and copies its bytes.
pub fn get_message_bytes(src: &mut Cursor) -> (r: Result<Vec<u8>, FrameError>)
    requires
        old(src).bytes().len() > 0,
    ensures
        final(src).bytes() == old(src).bytes(),
        match line_at(old(src).bytes(), old(src).pos()) {
            Some((l, q)) => r matches Ok(v) && v@ == l && final(src).pos() == q,
            None => r matches Err(e) && e == FrameError::NoLine && final(src).pos() == old(
                src,
            ).pos(),
        },
{
    let line = get_line(src)?;
    Ok(vstd::slice::slice_to_vec(line))
}

/// Reads a line and takes its first eight bytes as a big-endian `i64`.
///
/// A line shorter than eight bytes is out of bounds for this read.
pub fn get_message_i64(src: &mut Cursor) -> (r: Result<i64, FrameError>)
    requires
        old(src).bytes().len() > 0,
        line_at(old(src).bytes(), old(src).pos()) matches Some((l, _)) ==> l.len() >= 8,
    ensures
        final(src).bytes() == old(src).bytes(),
        match line_at(old(src).bytes(), old(src).pos()) {
            Some((l, q)) => r == Ok::<i64, FrameError>(i64_from_be(l)) && final(src).pos() == q,
            None => r matches Err(e) && e == FrameError::NoLine && final(src).pos() == old(
                src,
            ).pos(),
        },
{
    let line = get_line(src)?;
    Ok(i64_from_be_bytes(line))
}

/// Reads a line and takes its first four bytes as a big-endian `u32`.
///
/// A line shorter than four bytes is out of bounds for this read.
pub fn get_message_len(src: &mut Cursor) -> (r: Result<u32, FrameError>)
    requires
        old(src).bytes().len() > 0,
        line_at(old(src).bytes(), old(src).pos()) matches Some((l, _)) ==> l.len() >= 4,
    ensures
        final(src).bytes() == old(src).bytes(),
        match line_at(old(src).bytes(), old(src).pos()) {
            Some((l, q)) => r == Ok::<u32, FrameError>(u32_from_be(l)) && final(src).pos() == q,
            None => r matches Err(e) && e == FrameError::NoLine && final(src).pos() == old(
                src,
            ).pos(),
        },
{
    let line = get_line(src)?;
    Ok(u32_from_be_bytes(line))
}

/// What a check step reports: `None` where checking would panic.
pub open spec fn check_step_matches(data: Seq<u8>, pos: int, r: Option<Result<(), FrameError>>, end: int) -> bool {
    match check_at(data, pos) {
        Scan::Done(_, c) => r == Some(Ok::<(), FrameError>(())) && end == pos + c,
        Scan::Fail(e, c) => r == Some(Err::<(), FrameError>(e)) && end == pos + c,
        Scan::Abort => r is None,
    }
}

/// Checks one frame at the read position, reporting `None` where
/// `Frame::check` would panic instead of reading on.
pub(crate) fn check_step(src: &mut Cursor) -> (r: Option<Result<(), FrameError>>)
    ensures
        final(src).bytes() == old(src).bytes(),
        check_step_matches(old(src).bytes(), old(src).pos(), r, final(src).pos()),
    decreases room(old(src).bytes(), old(src).pos()),
{
    let ghost data = src.bytes();
    let ghost start = src.pos();
    let _ = src.position();
    let head = match get_u8(src) {
        Ok(h) => h,
        Err(e) => return Some(Err(e)),
    };
    assert(0 <= start < data.len());
    assert(head == data[start]);
    proof {
        crate::wire::lemma_find_crlf_bounds(data, start + 1);
    }
    if head == SIMPLE_HEAD {
        match get_line(src) {
            Ok(_) => Some(Ok(())),
            Err(e) => Some(Err(e)),
        }
    } else if head == INTEGER_HEAD {
        if let Err(e) = get_u8(src) {
            return Some(Err(e));
        }
        proof {
            crate::wire::lemma_find_crlf_bounds(data, start + 2);
        }
        match get_line(src) {
            Ok(line) => if line.len() < 8 {
                None
            } else {
                Some(Ok(()))
            },
            Err(e) => Some(Err(e)),
        }
    } else if head == NULL_HEAD {
        skip(src);
        Some(Ok(()))
    } else if head == ERROR_HEAD {
        if let Err(e) = get_message_bytes(src) {
            return Some(Err(e));
        }
        proof {
            crate::wire::lemma_find_crlf_bounds(data, src.pos());
        }
        match get_line(src) {
            Ok(_) => Some(Ok(())),
            Err(e) => Some(Err(e)),
        }
    } else if head == BULK_HEAD {
        let line = match get_line(src) {
            Ok(l) => l,
            Err(e) => return Some(Err(e)),
        };
        if line.len() < 4 {
            return None;
        }
        proof {
            crate::wire::lemma_find_crlf_bounds(data, src.pos());
        }
        match get_line(src) {
            Ok(_) => Some(Ok(())),
            Err(e) => Some(Err(e)),
        }
    } else if head == ARRAY_HEAD {
        let line = match get_line(src) {
            Ok(l) => l,
            Err(_) => return Some(Err(FrameError::CheckFailed)),
        };
        if line.len() < 4 {
            return None;
        }
        let len = u32_from_be_bytes(line);
        let ghost q = src.pos();
        let mut i: u32 = 0;
        while i < len
            invariant
                0 <= i <= len,
                len == u32_from_be(line@),
                src.bytes() == data,
                old(src).bytes() == data,
                old(src).pos() == start,
                data[start] == ARRAY_HEAD,
                line_at(data, start + 1) == Some((line@, q)),
                line@.len() >= 4,
                start < q <= src.pos(),
                0 <= start < data.len(),
                check_seq_at(data, q, i as nat) == Scan::<()>::Done((), (src.pos() - q) as nat),
            decreases len - i,
        {
            assert(room(data, src.pos()) < room(data, start));
            let r = check_step(src);
            match r {
                Some(Ok(())) => {},
                _ => {
                    proof {
                        lemma_check_seq_stuck(data, q, (i + 1) as nat, len as nat);
                    }
                    return r;
                },
            }
            i += 1;
        }
        Some(Ok(()))
    } else {
        Some(Err(FrameError::CheckFailed))
    }
}

impl Frame {
    /// Checks that a whole frame is present at the read position, moving
    /// past what the check reads.
    ///
    /// The check reads its own grammar, which differs from the parser's:
    /// it skips one byte before an integer's line, reads two lines for an
    /// error string and, for a bulk string, a line after the length in
    /// place of the counted bytes. Inputs on which it would index out of
    /// bounds (an integer line under eight bytes, a length line under four)
    /// are outside its contract.
    pub fn check(src: &mut Cursor) -> (r: Result<(), FrameError>)
        requires
            !check_at(old(src).bytes(), old(src).pos()).aborts(),
        ensures
            final(src).bytes() == old(src).bytes(),
            match check_at(old(src).bytes(), old(src).pos()) {
                Scan::Done(_, c) => r is Ok && final(src).pos() == old(src).pos() + c,
                Scan::Fail(e, c) => r == Err::<(), FrameError>(e) && final(src).pos() == old(
                    src,
                ).pos() + c,
                Scan::Abort => false,
            },
    {
        match check_step(src) {
            Some(r) => r,
            // excluded by the precondition
            None => Ok(()),
        }
    }
}

/// What a parse step reports: `None` where parsing would panic.
pub open spec fn parse_step_matches(
    data: Seq<u8>,
    pos: int,
    r: Option<Result<Frame, FrameError>>,
    end: int,
) -> bool {
    match parse_at(data, pos) {
        Scan::Done(f, c) => r matches Some(Ok(fr)) && fr@ == f && end == pos + c,
        Scan::Fail(e, c) => r matches Some(Err(e2)) && e2 == e && end == pos + c,
        Scan::Abort => r is None,
    }
}

/// Parses one frame at the read position, reporting `None` where
/// `Frame::parse` would panic instead of reading on.
pub(crate) fn parse_step(src: &mut Cursor) -> (r: Option<Result<Frame, FrameError>>)
    ensures
        final(src).bytes() == old(src).bytes(),
        parse_step_matches(old(src).bytes(), old(src).pos(), r, final(src).pos()),
    decreases room(old(src).bytes(), old(src).pos()),
{
    let ghost data = src.bytes();
    let ghost start = src.pos();
    let _ = src.position();
    let head = match get_u8(src) {
        Ok(h) => h,
        Err(e) => return Some(Err(e)),
    };
    assert(0 <= start < data.len());
    assert(head == data[start]);
    proof {
        crate::wire::lemma_find_crlf_bounds(data, start + 1);
    }
    if head == SIMPLE_HEAD || head == ERROR_HEAD {
        let line = match get_line(src) {
            Ok(l) => l,
            Err(e) => return Some(Err(e)),
        };
        match string_from_utf8(vstd::slice::slice_to_vec(line)) {
            Some(text) => if head == SIMPLE_HEAD {
                Some(Ok(Frame::Simple(text)))
            } else {
                Some(Ok(Frame::ErrorResult(text)))
            },
            None => Some(Err(FrameError::InvalidUtf8)),
        }
    } else if head == INTEGER_HEAD {
        let line = match get_line(src) {
            Ok(l) => l,
            Err(e) => return Some(Err(e)),
        };
        if line.len() < 8 {
            return None;
        }
        Some(Ok(Frame::Integer(i64_from_be_bytes(line))))
    } else if head == NULL_HEAD {
        skip(src);
        Some(Ok(Frame::Null))
    } else if head == BULK_HEAD {
        let line = match get_line(src) {
            Ok(l) => l,
            Err(e) => return Some(Err(e)),
        };
        if line.len() < 4 {
            return None;
        }
        let len = u32_from_be_bytes(line);
        let position = src.position();
        let data_ref = src.get_ref();
        if position > data_ref.len() as u64 || len as u64 > data_ref.len() as u64 - position {
            return None;
        }
        let from = position as usize;
        let to = from + len as usize;
        let bulk = vstd::slice::slice_to_vec(vstd::slice::slice_subrange(data_ref, from, to));
        src.set_position(position + len as u64);
        skip(src);
        Some(Ok(Frame::Bulk(bulk)))
    } else if head == ARRAY_HEAD {
        let line = match get_line(src) {
            Ok(l) => l,
            Err(e) => return Some(Err(e)),
        };
        if line.len() < 4 {
            return None;
        }
        let len = u32_from_be_bytes(line);
        let ghost q = src.pos();
        let mut frames: Vec<Frame> = Vec::new();
        let mut i: u32 = 0;
        while i < len
            invariant
                0 <= i <= len,
                len == u32_from_be(line@),
                src.bytes() == data,
                old(src).bytes() == data,
                old(src).pos() == start,
                data[start] == ARRAY_HEAD,
                line_at(data, start + 1) == Some((line@, q)),
                line@.len() >= 4,
                start < q <= src.pos(),
                0 <= start < data.len(),
                frames@.len() == i,
                parse_seq_at(data, q, i as nat) == Scan::Done(
                    frames_view(frames@),
                    (src.pos() - q) as nat,
                ),
            decreases len - i,
        {
            assert(room(data, src.pos()) < room(data, start));
            let ghost before = frames@;
            match parse_step(src) {
                Some(Ok(f)) => {
                    frames.push(f);
                    assert(frames@.subrange(0, frames@.len() - 1) =~= before);
                },
                Some(Err(e)) => {
                    proof {
                        lemma_parse_seq_stuck(data, q, (i + 1) as nat, len as nat);
                    }
                    return Some(Err(e));
                },
                None => {
                    proof {
                        lemma_parse_seq_stuck(data, q, (i + 1) as nat, len as nat);
                    }
                    return None;
                },
            }
            i += 1;
        }
        Some(Ok(Frame::Array(frames)))
    } else {
        Some(Err(FrameError::InvalidHead))
    }
}

impl Frame {
    /// Parses the frame at the read position, moving past what it reads.
    ///
    /// Inputs on which the parser would index out of bounds (an integer line
    /// under eight bytes, a length line under four, a bulk length running
    /// past the buffer) are outside its contract.
    pub fn parse(src: &mut Cursor) -> (r: Result<Frame, FrameError>)
        requires
            !parse_at(old(src).bytes(), old(src).pos()).aborts(),
        ensures
            final(src).bytes() == old(src).bytes(),
            match parse_at(old(src).bytes(), old(src).pos()) {
                Scan::Done(f, c) => r matches Ok(fr) && fr@ == f && final(src).pos() == old(src).pos() + c,
                Scan::Fail(e, c) => r matches Err(e2) && e2 == e && final(src).pos() == old(src).pos() + c,
                Scan::Abort => false,
            },
    {
        match parse_step(src) {
            Some(r) => r,
            // excluded by the precondition
            None => Ok(Frame::Null),
        }
    }
}

/// Appends the bytes of `src` and a line terminator.
pub fn write_line(src: &[u8], target: &mut Vec<u8>) -> (r: Result<(), FrameError>)
    ensures
        r is Ok,
        final(target)@ == old(target)@ + src@ + crlf(),
{
    target.extend_from_slice(src);
    target.push(CR);
    target.push(LF);
    assert(target@ =~= old(target)@ + src@ + crlf());
    Ok(())
}

/// Appends a line terminator.
pub fn write_rn(target: &mut Vec<u8>) -> (r: Result<(), FrameError>)
    ensures
        r is Ok,
        final(target)@ == old(target)@ + crlf(),
{
    target.push(CR);
    target.push(LF);
    assert(target@ =~= old(target)@ + crlf());
    Ok(())
}

/// Appends a line terminator to an output buffer.
pub fn write_rn_to_bytes(target: &mut Vec<u8>) -> (r: Result<(), FrameError>)
    ensures
        r is Ok,
        final(target)@ == old(target)@ + crlf(),
{
    write_rn(target)
}

/// Appends the bytes of a string.
fn put_str(out: &mut Vec<u8>, s: &String)
    ensures
        final(out)@ == old(out)@ + vstd::utf8::encode_utf8(s@),
{
    let bytes = s.as_str().as_bytes();
    out.extend_from_slice(bytes);
    assert(out@ =~= old(out)@ + vstd::utf8::encode_utf8(s@));
}

/// Appends the bytes of a frame.
fn serialize_into(frame: &Frame, out: &mut Vec<u8>)
    requires
        old(out)@.len() + serialize(frame@).len() <= isize::MAX,
    ensures
        final(out)@ == old(out)@ + serialize(frame@),
    decreases frame@,
{
    match frame {
        Frame::Simple(value) => {
            buf_put_u8(out, SIMPLE_HEAD);
            put_str(out, value);
            let _ = write_rn_to_bytes(out);
        },
        Frame::Integer(value) => {
            buf_put_u8(out, INTEGER_HEAD);
            buf_put_i64(out, *value);
            let _ = write_rn_to_bytes(out);
        },
        Frame::Null => {
            buf_put_u8(out, NULL_HEAD);
            let _ = write_rn_to_bytes(out);
        },
        Frame::ErrorResult(value) => {
            buf_put_u8(out, ERROR_HEAD);
            put_str(out, value);
            let _ = write_rn_to_bytes(out);
        },
        Frame::Bulk(value) => {
            buf_put_u8(out, BULK_HEAD);
            buf_put_u32(out, value.len() as u32);
            let _ = write_rn_to_bytes(out);
            out.extend_from_slice(value.as_slice());
            let _ = write_rn_to_bytes(out);
        },
        Frame::Array(frames) => {
            let ghost fs = frames_view(frames@);
            proof {
                lemma_frames_view(frames@);
            }
            buf_put_u8(out, ARRAY_HEAD);
            buf_put_u32(out, frames.len() as u32);
            let _ = write_rn(out);
            let ghost header = out@;
            let mut i: usize = 0;
            while i < frames.len()
                invariant
                    0 <= i <= frames.len(),
                    fs == frames_view(frames@),
                    frame@ == SpecFrame::Array(fs),
                    fs.len() == frames@.len(),
                    forall|j: int| 0 <= j < frames@.len() ==> #[trigger] fs[j] == frame_view(frames@[j]),
                    header.len() + serialize_seq(fs).len() <= isize::MAX,
                    out@ == header + serialize_seq(fs.subrange(0, i as int)),
                decreases frames.len() - i,
            {
                proof {
                    crate::wire_laws::lemma_serialize_seq_prefix_len(fs, i + 1, fs.len() as int);
                    assert(fs.subrange(0, i + 1).subrange(0, i as int) =~= fs.subrange(0, i as int));
                    assert(fs.subrange(0, i + 1)[i as int] == fs[i as int]);
                    assert(serialize_seq(fs.subrange(0, i + 1)) == serialize_seq(fs.subrange(0, i as int)) + serialize(fs[i as int]));
                    assert(frames@[i as int]@ == fs[i as int]);
                    assert(fs.subrange(0, fs.len() as int) =~= fs);
                    assert(decreases_to!(frame@ => frame@->Array_0));
                    assert(decreases_to!(frame@->Array_0 => frame@->Array_0[i as int]));
                    assert(decreases_to!(frame@ => frame@->Array_0[i as int]));
                }
                serialize_into(&frames[i], out);
                i += 1;
            }
            assert(fs.subrange(0, fs.len() as int) =~= fs);
        },
    }
    assert(out@ =~= old(out)@ + serialize(frame@));
}

impl Frame {
    /// How many bytes `parse_frame_to_bytes` writes for this frame, when
    /// that number is at most `isize::MAX`, and `None` when it is more.
    pub fn byte_len(&self) -> (r: Option<usize>)
        ensures
            match r {
                Some(n) => n == serialize(self@).len() && n <= isize::MAX,
                None => serialize(self@).len() > isize::MAX,
            },
        decreases self@,
    {
        let limit: usize = isize::MAX as usize;
        match self {
            Frame::Simple(value) => {
                let n = value.as_str().as_bytes().len();
                if n > limit - 3 {
                    None
                } else {
                    Some(n + 3)
                }
            },
            Frame::Integer(_) => Some(11),
            Frame::Null => Some(3),
            Frame::ErrorResult(value) => {
                let n = value.as_str().as_bytes().len();
                if n > limit - 3 {
                    None
                } else {
                    Some(n + 3)
                }
            },
            Frame::Bulk(value) => {
                if value.len() > limit - 9 {
                    None
                } else {
                    Some(value.len() + 9)
                }
            },
            Frame::Array(frames) => {
                let ghost fs = frames_view(frames@);
                proof {
                    lemma_frames_view(frames@);
                }
                let mut total: usize = 7;
                let mut i: usize = 0;
                while i < frames.len()
                    invariant
                        0 <= i <= frames.len(),
                        limit == isize::MAX,
                        fs == frames_view(frames@),
                        self@ == SpecFrame::Array(fs),
                        fs.len() == frames@.len(),
                        forall|j: int| 0 <= j < frames@.len() ==> #[trigger] fs[j] == frame_view(frames@[j]),
                        total == 7 + serialize_seq(fs.subrange(0, i as int)).len(),
                        total <= limit,
                    decreases frames.len() - i,
                {
                    proof {
                        crate::wire_laws::lemma_serialize_seq_prefix_len(fs, i + 1, fs.len() as int);
                        assert(fs.subrange(0, i + 1).subrange(0, i as int) =~= fs.subrange(0, i as int));
                        assert(fs.subrange(0, i + 1)[i as int] == fs[i as int]);
                        assert(serialize_seq(fs.subrange(0, i + 1)) == serialize_seq(fs.subrange(0, i as int)) + serialize(fs[i as int]));
                        assert(frames@[i as int]@ == fs[i as int]);
                        assert(fs.subrange(0, fs.len() as int) =~= fs);
                        assert(serialize(self@).len() == 7 + serialize_seq(fs).len());
                        assert(decreases_to!(self@ => self@->Array_0));
                        assert(decreases_to!(self@->Array_0 => self@->Array_0[i as int]));
                        assert(decreases_to!(self@ => self@->Array_0[i as int]));
                    }
                    match frames[i].byte_len() {
                        None => {
                            return None;
                        },
                        Some(n) => {
                            if n > limit - total {
                                return None;
                            }
                            total = total + n;
                        },
                    }
                    i += 1;
                }
                assert(fs.subrange(0, fs.len() as int) =~= fs);
                Some(total)
            },
        }
    }
}

impl Frame {
    /// The bytes of a frame: a head byte, then a line for strings and
    /// integers (written as eight big-endian bytes); a length line (four
    /// big-endian bytes) and the data and a terminator for bulk strings; a
    /// count line and the elements one after the other for arrays.
    ///
    /// Lengths are written as `u32`, cut to their low 32 bits.
    pub fn parse_frame_to_bytes(frame: Frame) -> (r: Result<Vec<u8>, FrameError>)
        requires
            serialize(frame@).len() <= isize::MAX,
        ensures
            r matches Ok(bytes) && bytes@ == serialize(frame@),
    {
        let mut bytes: Vec<u8> = Vec::new();
        serialize_into(&frame, &mut bytes);
        assert(bytes@ =~= serialize(frame@));
        Ok(bytes)
    }
}

/// The error that reading a non-simple frame as a string gives: an error
/// reply carries its message.
pub open spec fn is_string_error(f: SpecFrame, e: FrameError) -> bool {
    match f {
        SpecFrame::ErrorResult(m) => e matches FrameError::ErrorReply(s) && s@ == m,
        _ => e is NotAString,
    }
}

impl Frame {
    /// The text of a simple string; an error reply gives its message as the
    /// error, any other frame `NotAString`.
    pub fn parse_to_string(frame: &Frame) -> (r: Result<String, FrameError>)
        ensures
            match frame@ {
                SpecFrame::Simple(s) => r matches Ok(v) && v@ == s,
                _ => r matches Err(e) && is_string_error(frame@, e),
            },
    {
        match frame {
            Frame::Simple(val) => Ok(val.clone()),
            Frame::ErrorResult(val) => Err(FrameError::ErrorReply(val.clone())),
            _ => Err(FrameError::NotAString),
        }
    }

    /// The bytes a frame carries: the UTF-8 of a string or an error
    /// message, the eight big-endian bytes of an integer, the data of a bulk
    /// string; none for the null frame; an array gives `NotBytes`.
    pub fn parse_to_bytes(frame: &Frame) -> (r: Result<Option<Vec<u8>>, FrameError>)
        ensures
            match frame@ {
                SpecFrame::Simple(s) => r matches Ok(Some(b)) && b@ == vstd::utf8::encode_utf8(s),
                SpecFrame::ErrorResult(s) => r matches Ok(Some(b)) && b@ == vstd::utf8::encode_utf8(s),
                SpecFrame::Integer(v) => r matches Ok(Some(b)) && b@ == be_bytes_i64(v),
                SpecFrame::Null => r matches Ok(None),
                SpecFrame::Bulk(d) => r matches Ok(Some(b)) && b@ == d,
                SpecFrame::Array(_) => r matches Err(e) && e is NotBytes,
            },
    {
        match frame {
            Frame::Simple(val) => Ok(Some(vstd::slice::slice_to_vec(val.as_str().as_bytes()))),
            Frame::Integer(val) => {
                let mut data: Vec<u8> = Vec::new();
                buf_put_i64(&mut data, *val);
                assert(data@ =~= be_bytes_i64(*val));
                Ok(Some(data))
            },
            Frame::Null => Ok(None),
            Frame::ErrorResult(val) => Ok(Some(vstd::slice::slice_to_vec(val.as_str().as_bytes()))),
            Frame::Bulk(val) => Ok(Some(vstd::slice::slice_to_vec(val.as_slice()))),
            Frame::Array(_) => Err(FrameError::NotBytes),
        }
    }

    /// The texts of an array of simple strings. The first element that is
    /// not a simple string decides the error, as `parse_to_string` gives
    /// it; a frame that is not an array gives `NotAStringList`.
    pub fn parse_to_vec_string(frame: &Frame) -> (r: Result<Vec<String>, FrameError>)
        ensures
            match frame@ {
                SpecFrame::Array(fs) => if forall|i: int| 0 <= i < fs.len() ==> (#[trigger] fs[i]) is Simple {
                    r matches Ok(v) && v@.len() == fs.len() && forall|i: int|
                        0 <= i < fs.len() ==> (#[trigger] v@[i])@ == fs[i]->Simple_0
                } else {
                    r matches Err(e) && exists|i: int|
                        0 <= i < fs.len() && !((#[trigger] fs[i]) is Simple) && (forall|j: int|
                            0 <= j < i ==> (#[trigger] fs[j]) is Simple) && is_string_error(fs[i], e)
                },
                _ => r matches Err(e) && e is NotAStringList,
            },
    {
        match frame {
            Frame::Array(frames) => {
                let ghost fs = frames_view(frames@);
                proof {
                    lemma_frames_view(frames@);
                }
                let mut out: Vec<String> = Vec::new();
                let mut i: usize = 0;
                while i < frames.len()
                    invariant
                        0 <= i <= frames.len(),
                        frame@ == SpecFrame::Array(fs),
                        fs.len() == frames@.len(),
                        forall|j: int| 0 <= j < frames@.len() ==> #[trigger] fs[j] == frame_view(frames@[j]),
                        out@.len() == i,
                        forall|j: int| 0 <= j < i ==> (#[trigger] fs[j]) is Simple,
                        forall|j: int| 0 <= j < i ==> (#[trigger] out@[j])@ == fs[j]->Simple_0,
                    decreases frames.len() - i,
                {
                    assert(frames@[i as int]@ == fs[i as int]);
                    match Frame::parse_to_string(&frames[i]) {
                        Ok(s) => out.push(s),
                        Err(e) => {
                            assert(!(fs[i as int] is Simple));
                            return Err(e);
                        },
                    }
                    i += 1;
                }
                Ok(out)
            },
            _ => Err(FrameError::NotAStringList),
        }
    }
}

/// A copy of a frame.
fn clone_frame(frame: &Frame) -> (r: Frame)
    ensures
        r@ == frame@,
    decreases frame@,
{
    match frame {
        Frame::Simple(s) => Frame::Simple(s.clone()),
        Frame::Integer(v) => Frame::Integer(*v),
        Frame::Null => Frame::Null,
        Frame::ErrorResult(s) => Frame::ErrorResult(s.clone()),
        Frame::Bulk(b) => Frame::Bulk(vstd::slice::slice_to_vec(b.as_slice())),
        Frame::Array(frames) => {
            let ghost fs = frames_view(frames@);
            proof {
                lemma_frames_view(frames@);
            }
            let mut copies: Vec<Frame> = Vec::new();
            let mut i: usize = 0;
            while i < frames.len()
                invariant
                    0 <= i <= frames.len(),
                    fs == frames_view(frames@),
                    frame@ == SpecFrame::Array(fs),
                    fs.len() == frames@.len(),
                    forall|j: int| 0 <= j < frames@.len() ==> #[trigger] fs[j] == frame_view(frames@[j]),
                    frames_view(copies@) == fs.subrange(0, i as int),
                decreases frames.len() - i,
            {
                proof {
                    assert(frames@[i as int]@ == fs[i as int]);
                    assert(decreases_to!(frame@ => frame@->Array_0));
                    assert(decreases_to!(frame@->Array_0 => frame@->Array_0[i as int]));
                    assert(decreases_to!(frame@ => frame@->Array_0[i as int]));
                }
                let ghost before = copies@;
                copies.push(clone_frame(&frames[i]));
                proof {
                    assert(copies@.subrange(0, copies@.len() - 1) =~= before);
                    assert(frames_view(copies@) =~= fs.subrange(0, i + 1));
                }
                i += 1;
            }
            assert(fs.subrange(0, fs.len() as int) =~= fs);
            Frame::Array(copies)
        },
    }
}

impl Clone for Frame {
    fn clone(&self) -> (r: Frame)
        ensures
            r@ == self@,
    {
        clone_frame(self)
    }
}

} // verus!
