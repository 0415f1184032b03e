//! Sequential reads over an in-memory byte source.
//!
//! A `ByteCursor` walks a byte slice from front to back; every read states
//! exactly which bytes it yields and how far it advances, and fails with
//! `Error::UnexpectedEof` when the bytes run out mid-field.

use vstd::prelude::*;

use crate::error::{Error, ErrorSpec};

verus! {

/// The unsigned 32-bit little-endian integer stored at byte offset `i`.
pub open spec fn u32_le_at(b: Seq<u8>, i: int) -> u32
    recommends
        0 <= i,
        i + 4 <= b.len(),
{
    (b[i] as int + b[i + 1] as int * 0x100 + b[i + 2] as int * 0x10000 + b[i + 3] as int
        * 0x1000000) as u32
}

/// The smallest index `>= i` holding a NUL byte, or `b.len()` if none does.
pub open spec fn nul_pos(b: Seq<u8>, i: int) -> int
    recommends
        0 <= i <= b.len(),
    decreases b.len() - i,
{
    if i < 0 || i >= b.len() {
        b.len() as int
    } else if b[i] == 0 {
        i
    } else {
        nul_pos(b, i + 1)
    }
}

pub proof fn lemma_nul_pos_bounds(b: Seq<u8>, i: int)
    requires
        0 <= i <= b.len(),
    ensures
        i <= nul_pos(b, i) <= b.len(),
        nul_pos(b, i) < b.len() ==> b[nul_pos(b, i)] == 0,
        forall|j: int| i <= j < nul_pos(b, i) ==> b[j] != 0,
    decreases b.len() - i,
{
    if i < b.len() && b[i] != 0 {
        lemma_nul_pos_bounds(b, i + 1);
    }
}

/// A cursor over a byte slice: the bytes never change, only the position
/// advances.
pub struct ByteCursor<'a> {
    data: &'a [u8],
    pos: usize,
}

impl<'a> ByteCursor<'a> {
    /// The bytes the cursor walks over.
    pub closed spec fn bytes(self) -> Seq<u8> {
        self.data@
    }

    /// The current read position.
    pub closed spec fn pos(self) -> int {
        self.pos as int
    }

    /// The position never passes the end of the bytes.
    pub open spec fn wf(self) -> bool {
        0 <= self.pos() <= self.bytes().len()
    }

    /// How many bytes are left to read.
    pub open spec fn remaining(self) -> int {
        self.bytes().len() - self.pos()
    }

    pub fn new(data: &'a [u8]) -> (r: Self)
        ensures
            r.bytes() == data@,
            r.pos() == 0,
            r.wf(),
    {
        ByteCursor { data, pos: 0 }
    }

    /// Whether every byte has been read.
    pub fn at_end(&self) -> (r: bool)
        requires
            self.wf(),
        ensures
            r <==> self.remaining() == 0,
    {
        self.pos == self.data.len()
    }

    /// How many bytes are left to read.
    pub fn remaining_len(&self) -> (n: usize)
        requires
            self.wf(),
        ensures
            n == self.remaining(),
    {
        self.data.len() - self.pos
    }

    /// Read one byte.
    pub fn read_u8(&mut self) -> (r: Result<u8, Error>)
        requires
            old(self).wf(),
        ensures
            final(self).wf(),
            final(self).bytes() == old(self).bytes(),
            old(self).remaining() >= 1 ==> r == Ok::<u8, Error>(
                old(self).bytes()[old(self).pos()],
            ) && final(self).pos() == old(self).pos() + 1,
            old(self).remaining() < 1 ==> r == Err::<u8, Error>(Error::UnexpectedEof) && *final(self) == *old(self),
    {
        if self.pos < self.data.len() {
            let b = self.data[self.pos];
            self.pos = self.pos + 1;
            Ok(b)
        } else {
            Err(Error::UnexpectedEof)
        }
    }

    /// Read a little-endian unsigned 32-bit integer.
    pub fn read_u32_le(&mut self) -> (r: Result<u32, Error>)
        requires
            old(self).wf(),
        ensures
            final(self).wf(),
            final(self).bytes() == old(self).bytes(),
            old(self).remaining() >= 4 ==> r == Ok::<u32, Error>(
                u32_le_at(old(self).bytes(), old(self).pos()),
            ) && final(self).pos() == old(self).pos() + 4,
            old(self).remaining() < 4 ==> r == Err::<u32, Error>(Error::UnexpectedEof) && *final(self) == *old(self),
    {
        if self.data.len() - self.pos >= 4 {
            let b0 = self.data[self.pos] as u32;
            let b1 = self.data[self.pos + 1] as u32;
            let b2 = self.data[self.pos + 2] as u32;
            let b3 = self.data[self.pos + 3] as u32;
            self.pos = self.pos + 4;
            Ok(b0 + b1 * 0x100 + b2 * 0x10000 + b3 * 0x1000000)
        } else {
            Err(Error::UnexpectedEof)
        }
    }

    /// Read exactly `n` bytes.
    pub fn read_exact(&mut self, n: usize) -> (r: Result<Vec<u8>, Error>)
        requires
            old(self).wf(),
        ensures
            final(self).wf(),
            final(self).bytes() == old(self).bytes(),
            old(self).remaining() >= n ==> r is Ok && r->Ok_0@ == old(self).bytes().subrange(
                old(self).pos(),
                old(self).pos() + n,
            ) && final(self).pos() == old(self).pos() + n,
            old(self).remaining() < n ==> r == Err::<Vec<u8>, Error>(Error::UnexpectedEof)
                && *final(self) == *old(self),
    {
        if self.data.len() - self.pos >= n {
            let s = vstd::slice::slice_subrange(self.data, self.pos, self.pos + n);
            let v = vstd::slice::slice_to_vec(s);
            self.pos = self.pos + n;
            Ok(v)
        } else {
            Err(Error::UnexpectedEof)
        }
    }

    /// Read bytes up to, but not including, the next NUL byte, and consume
    /// the NUL itself. Fails if the bytes end before a NUL appears.
    pub fn read_nul_terminated_byte_string(&mut self) -> (r: Result<Vec<u8>, Error>)
        requires
            old(self).wf(),
        ensures
            final(self).wf(),
            final(self).bytes() == old(self).bytes(),
            nul_pos(old(self).bytes(), old(self).pos()) < old(self).bytes().len() ==> r is Ok
                && r->Ok_0@ == old(self).bytes().subrange(
                old(self).pos(),
                nul_pos(old(self).bytes(), old(self).pos()),
            ) && final(self).pos() == nul_pos(old(self).bytes(), old(self).pos()) + 1,
            nul_pos(old(self).bytes(), old(self).pos()) == old(self).bytes().len() ==> r == Err::<
                Vec<u8>,
                Error,
            >(Error::UnexpectedEof) && final(self).pos() == old(self).pos(),
    {
        proof {
            lemma_nul_pos_bounds(self.data@, self.pos as int);
        }
        let ghost np = nul_pos(self.data@, self.pos as int);
        let mut i: usize = self.pos;
        while i < self.data.len() && self.data[i] != 0
            invariant
                self.pos <= i <= self.data@.len(),
                np == nul_pos(self.data@, self.pos as int),
                i <= np <= self.data@.len(),
                forall|j: int| self.pos <= j < i ==> self.data@[j] != 0,
            decreases self.data@.len() - i,
        {
            proof {
                lemma_nul_pos_bounds(self.data@, self.pos as int);
            }
            i = i + 1;
        }
        proof {
            lemma_nul_pos_bounds(self.data@, self.pos as int);
            if i < self.data@.len() {
                assert(np == i);
            } else {
                assert(np == self.data@.len());
            }
        }
        if i < self.data.len() {
            let s = vstd::slice::slice_subrange(self.data, self.pos, i);
            let v = vstd::slice::slice_to_vec(s);
            self.pos = i + 1;
            Ok(v)
        } else {
            Err(Error::UnexpectedEof)
        }
    }
}

} // verus!
