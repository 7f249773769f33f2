//! A read position over a byte buffer.

use vstd::prelude::*;

verus! {

/// A byte buffer together with a read position.
///
/// The position may lie past the end of the buffer; reads then find
/// nothing left.
pub struct Cursor<'a> {
    data: &'a [u8],
    pos: u64,
}

impl<'a> Cursor<'a> {
    /// A buffer can never hold more than `isize::MAX` bytes.
    #[verifier::type_invariant]
    spec fn inv(self) -> bool {
        self.data@.len() <= isize::MAX
    }

    /// The bytes under the cursor.
    pub closed spec fn bytes(&self) -> Seq<u8> {
        self.data@
    }

    /// The read position.
    pub closed spec fn pos(&self) -> int {
        self.pos as int
    }

    /// A cursor at the start of `data`.
    pub fn new(data: &'a [u8]) -> (c: Cursor<'a>)
        requires
            data@.len() <= isize::MAX,
        ensures
            c.bytes() == data@,
            c.pos() == 0,
    {
        Cursor { data, pos: 0 }
    }

    /// The read position.
    pub fn position(&self) -> (p: u64)
        ensures
            p == self.pos(),
            self.bytes().len() <= isize::MAX,
    {
        proof {
            use_type_invariant(self);
        }
        self.pos
    }

    /// Moves the read position to `pos`.
    pub fn set_position(&mut self, pos: u64)
        ensures
            final(self).bytes() == old(self).bytes(),
            final(self).pos() == pos,
    {
        proof {
            use_type_invariant(&*self);
        }
        self.pos = pos;
    }

    /// The whole underlying buffer.
    pub fn get_ref(&self) -> (r: &'a [u8])
        ensures
            r@ == self.bytes(),
            r@.len() <= isize::MAX,
    {
        proof {
            use_type_invariant(self);
        }
        self.data
    }

    /// How many bytes are left after the read position.
    pub fn remaining(&self) -> (n: usize)
        ensures
            n == (if self.pos() < self.bytes().len() { self.bytes().len() - self.pos() } else { 0 }),
    {
        let len = self.data.len();
        if self.pos < len as u64 {
            len - self.pos as usize
        } else {
            0
        }
    }
}

} // verus!
