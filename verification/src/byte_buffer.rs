//! A cursor over a borrowed byte slice, with peek and pushback.

use vstd::prelude::*;

verus! {

/// A position in a borrowed slice of bytes. The position never passes the
/// end of the slice.
#[derive(Debug)]
pub struct ByteBuffer<'a> {
    data: &'a [u8],
    cur_pos: usize,
    len: usize,
}

impl<'a> ByteBuffer<'a> {
    /// All the bytes under the cursor, read or not.
    pub closed spec fn bytes(&self) -> Seq<u8> {
        self.data@
    }

    /// How many bytes lie before the cursor.
    pub closed spec fn position(&self) -> int {
        self.cur_pos as int
    }

    /// The fields agree with each other.
    pub closed spec fn inv(&self) -> bool {
        &&& self.len == self.data@.len()
        &&& self.cur_pos <= self.len
    }

    /// The cursor lies inside the slice or at its end.
    pub open spec fn wf(&self) -> bool {
        &&& self.inv()
        &&& 0 <= self.position() <= self.bytes().len() <= usize::MAX
    }

    /// The bytes that have not been read yet.
    pub open spec fn rest(&self) -> Seq<u8> {
        self.bytes().skip(self.position())
    }

    pub fn new(data: &'a [u8]) -> (buf: ByteBuffer<'a>)
        ensures
            buf.wf(),
            buf.bytes() == data@,
            buf.position() == 0,
    {
        ByteBuffer { data, cur_pos: 0, len: data.len() }
    }

    /// The byte under the cursor, which stays where it is.
    pub fn peek(&self) -> (byte: Option<&'a u8>)
        requires
            self.wf(),
        ensures
            self.rest().len() > 0 ==> byte == Some(&self.rest()[0]),
            self.rest().len() == 0 ==> byte is None,
    {
        if self.is_empty() {
            None
        } else {
            Some(&self.data[self.cur_pos])
        }
    }

    /// The byte under the cursor, which then moves one byte on.
    pub fn next(&mut self) -> (byte: Option<&'a u8>)
        requires
            old(self).wf(),
        ensures
            final(self).wf(),
            final(self).bytes() == old(self).bytes(),
            old(self).rest().len() > 0 ==> {
                &&& byte == Some(&old(self).rest()[0])
                &&& final(self).position() == old(self).position() + 1
                &&& final(self).rest() == old(self).rest().skip(1)
            },
            old(self).rest().len() == 0 ==> {
                &&& byte is None
                &&& final(self).position() == old(self).position()
            },
    {
        if self.is_empty() {
            None
        } else {
            self.cur_pos += 1;
            assert(self.rest() =~= old(self).rest().skip(1));
            Some(&self.data[self.cur_pos - 1])
        }
    }

    /// Moves the cursor `step` bytes on, or to the end where fewer are left.
    pub fn advance(&mut self, step: usize)
        requires
            old(self).wf(),
        ensures
            final(self).wf(),
            final(self).bytes() == old(self).bytes(),
            final(self).position() == if step <= old(self).rest().len() {
                old(self).position() + step
            } else {
                old(self).bytes().len() as int
            },
            step <= old(self).rest().len() ==> final(self).rest() == old(self).rest().skip(
                step as int,
            ),
    {
        if step > self.len - self.cur_pos {
            self.cur_pos = self.len;
        } else {
            self.cur_pos += step;
            assert(self.rest() =~= old(self).rest().skip(step as int));
        }
    }

    /// Moves the cursor `step` bytes back, or to the start where fewer were read.
    pub fn push_back(&mut self, step: usize)
        requires
            old(self).wf(),
        ensures
            final(self).wf(),
            final(self).bytes() == old(self).bytes(),
            final(self).position() == if step <= old(self).position() {
                old(self).position() - step
            } else {
                0
            },
    {
        if step > self.cur_pos {
            self.cur_pos = 0;
        } else {
            self.cur_pos -= step;
        }
    }

    pub fn pos(&self) -> (p: usize)
        ensures
            p == self.position(),
    {
        self.cur_pos
    }

    /// How many bytes have not been read yet.
    pub fn remaining(&self) -> (n: usize)
        requires
            self.wf(),
        ensures
            n == self.bytes().len() - self.position(),
            n == self.rest().len(),
    {
        self.len - self.cur_pos
    }

    pub fn is_empty(&self) -> (empty: bool)
        requires
            self.wf(),
        ensures
            empty == (self.position() >= self.bytes().len()),
            empty == (self.rest().len() == 0),
    {
        self.cur_pos >= self.len
    }
}

} // verus!
