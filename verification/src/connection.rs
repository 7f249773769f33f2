//! The bytes a connection has received and not yet read as frames.

use crate::cursor::Cursor;
use crate::error::FrameError;
use crate::frame::{check_step, parse_step, Frame};
use crate::wire::{check_at, check_passes, check_safe, null_free, parse_at, serialize, wire_safe, Scan, SpecFrame};
use crate::wire_laws::{lemma_check_cut_fails, lemma_check_passes, lemma_check_serialized, lemma_parse_serialized};
use vstd::prelude::*;

verus! {

/// Room reserved for incoming bytes.
pub const STREAM_MAX_BYTES: usize = 65536;

/// How far a scan moved, whether it succeeded or failed.
pub open spec fn consumed<T>(s: Scan<T>) -> int {
    match s {
        Scan::Done(_, c) => c as int,
        Scan::Fail(_, c) => c as int,
        Scan::Abort => 0,
    }
}

/// Taking a frame from `buf` panics: the check panics, or it passes and
/// the parser panics or moves past the end of the buffer.
pub open spec fn take_frame_aborts(buf: Seq<u8>) -> bool {
    ||| check_at(buf, 0) is Abort
    ||| check_at(buf, 0) is Done && (parse_at(buf, 0) is Abort || consumed(parse_at(buf, 0))
        > buf.len())
}

/// The bytes received from a peer that no frame has taken yet.
pub struct Connection {
    buffer: Vec<u8>,
}

impl View for Connection {
    type V = Seq<u8>;

    closed spec fn view(&self) -> Seq<u8> {
        self.buffer@
    }
}

impl Connection {
    /// A buffer never holds more than `isize::MAX` bytes.
    #[verifier::type_invariant]
    spec fn inv(self) -> bool {
        self.buffer@.len() <= isize::MAX
    }

    /// A connection that has received nothing yet.
    pub fn new() -> (c: Connection)
        ensures
            c@ == Seq::<u8>::empty(),
    {
        Connection { buffer: Vec::new() }
    }

    /// Appends bytes received from the peer.
    pub fn receive(&mut self, data: &[u8])
        requires
            old(self)@.len() + data@.len() <= isize::MAX,
        ensures
            final(self)@ == old(self)@ + data@,
    {
        let mut buffer: Vec<u8> = Vec::new();
        std::mem::swap(&mut buffer, &mut self.buffer);
        buffer.extend_from_slice(data);
        assert(buffer@ =~= old(self)@ + data@);
        self.buffer = buffer;
    }

    /// The bytes received and not yet taken.
    pub fn buffer(&self) -> (r: &[u8])
        ensures
            r@ == self@,
    {
        self.buffer.as_slice()
    }

    /// Whether `try_parse_frame` would panic on the bytes received so far.
    pub fn try_parse_frame_aborts(&self) -> (r: bool)
        ensures
            r == take_frame_aborts(self@),
    {
        proof {
            use_type_invariant(self);
        }
        let mut cursor = Cursor::new(self.buffer.as_slice());
        match check_step(&mut cursor) {
            None => true,
            Some(Err(_)) => false,
            Some(Ok(())) => {
                cursor.set_position(0);
                match parse_step(&mut cursor) {
                    None => true,
                    Some(_) => cursor.position() > self.buffer.len() as u64,
                }
            },
        }
    }

    /// Takes the frame at the start of the received bytes. When the check
    /// finds no whole frame, nothing is taken and its error is returned.
    /// Otherwise the frame is parsed and the bytes the parser read are
    /// dropped, whether it succeeded or not.
    pub fn try_parse_frame(&mut self) -> (r: Result<Frame, FrameError>)
        requires
            !take_frame_aborts(old(self)@),
        ensures
            match check_at(old(self)@, 0) {
                Scan::Done(_, _) => match parse_at(old(self)@, 0) {
                    Scan::Done(f, c) => r matches Ok(fr) && fr@ == f && final(self)@ == old(
                        self,
                    )@.subrange(c as int, old(self)@.len() as int),
                    Scan::Fail(e, c) => r matches Err(e2) && e2 == e && final(self)@ == old(
                        self,
                    )@.subrange(c as int, old(self)@.len() as int),
                    Scan::Abort => false,
                },
                Scan::Fail(e, _) => r matches Err(e2) && e2 == e && final(self)@ == old(self)@,
                Scan::Abort => false,
            },
    {
        proof {
            use_type_invariant(&*self);
        }
        let mut cursor = Cursor::new(self.buffer.as_slice());
        Frame::check(&mut cursor)?;
        cursor.set_position(0);
        let res = Frame::parse(&mut cursor);
        let position = cursor.position();
        let mut buffer: Vec<u8> = Vec::new();
        std::mem::swap(&mut buffer, &mut self.buffer);
        let rest = buffer.split_off(position as usize);
        self.buffer = rest;
        res
    }
}

/// Reading back what a peer wrote: when the received bytes start with the
/// bytes of a frame that the check and the parser both read to their end,
/// taking a frame does not panic, gives that frame, and leaves exactly the
/// bytes that followed it.
pub proof fn lemma_take_serialized_frame(f: SpecFrame, rest: Seq<u8>)
    requires
        check_safe(f),
        wire_safe(f),
    ensures
        !take_frame_aborts(serialize(f) + rest),
        check_at(serialize(f) + rest, 0) is Done,
        parse_at(serialize(f) + rest, 0) == Scan::Done(f, serialize(f).len()),
        (serialize(f) + rest).subrange(serialize(f).len() as int, (serialize(f) + rest).len() as int)
            == rest,
{
    let bytes = serialize(f);
    let buf = bytes + rest;
    assert(buf.subrange(0, bytes.len() as int) =~= bytes);
    lemma_check_serialized(buf, 0, f);
    lemma_parse_serialized(buf, 0, f);
    assert(buf.subrange(bytes.len() as int, buf.len() as int) =~= rest);
}

/// Waiting for the rest of a frame: when the received bytes are a strict
/// start of the bytes of a check-safe frame with no null frame in it,
/// taking a frame does not panic, and the check fails, so `try_parse_frame`
/// returns its error and keeps every byte. (A cut inside a null frame's
/// terminator is left out: there the check passes and taking the frame
/// panics, as on the single byte `_`.)
pub proof fn lemma_take_cut_frame(f: SpecFrame, n: int)
    requires
        check_safe(f),
        null_free(f),
        0 <= n < serialize(f).len(),
    ensures
        !take_frame_aborts(serialize(f).subrange(0, n)),
        check_at(serialize(f).subrange(0, n), 0) is Fail,
{
    let buf = serialize(f).subrange(0, n);
    lemma_check_cut_fails(buf, 0, f);
}

/// Reading back a whole frame whose last bulk string holds line
/// terminators in its data (such as a `SET` of a value with "\r\n" in it):
/// the check passes, taking the frame does not panic, the parser gives the
/// frame with all of its data, and exactly the bytes that followed it stay.
pub proof fn lemma_take_whole_frame(f: SpecFrame, rest: Seq<u8>)
    requires
        check_passes(f),
        wire_safe(f),
    ensures
        !take_frame_aborts(serialize(f) + rest),
        check_at(serialize(f) + rest, 0) is Done,
        parse_at(serialize(f) + rest, 0) == Scan::Done(f, serialize(f).len()),
        (serialize(f) + rest).subrange(serialize(f).len() as int, (serialize(f) + rest).len() as int)
            == rest,
{
    let bytes = serialize(f);
    let buf = bytes + rest;
    assert(buf.subrange(0, bytes.len() as int) =~= bytes);
    lemma_check_passes(buf, 0, f);
    lemma_parse_serialized(buf, 0, f);
    assert(buf.subrange(bytes.len() as int, buf.len() as int) =~= rest);
}

} // verus!
