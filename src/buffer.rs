//! A bounds-checked read cursor over a byte slice.

use vstd::prelude::*;

use vstd::slice::{slice_subrange, slice_to_vec};

use crate::addr::Ipv6Addr;
use crate::{Error, Result};

verus! {

/// The big-endian value of the two bytes at `i`.
pub open spec fn be16(s: Seq<u8>, i: int) -> int {
    s[i] * 0x100 + s[i + 1]
}

/// The big-endian value of the three bytes at `i`.
pub open spec fn be24(s: Seq<u8>, i: int) -> int {
    s[i] * 0x10000 + s[i + 1] * 0x100 + s[i + 2]
}

/// The big-endian value of the four bytes at `i`.
pub open spec fn be32(s: Seq<u8>, i: int) -> int {
    s[i] * 0x1000000 + s[i + 1] * 0x10000 + s[i + 2] * 0x100 + s[i + 3]
}

/// A read view of a byte slice with an offset that reads advance.
pub struct Buffer<'a> {
    pub data: &'a [u8],
    len: usize,
    offset: usize,
}

impl<'a> Buffer<'a> {
    /// The bytes under the cursor.
    pub closed spec fn bytes(&self) -> Seq<u8> {
        self.data@
    }

    /// The offset of the next read.
    pub closed spec fn pos(&self) -> int {
        self.offset as int
    }

    pub closed spec fn wf(&self) -> bool {
        self.len == self.data@.len() && self.offset <= self.len
    }

    /// The offset of a well-formed cursor lies within its bytes.
    pub proof fn lemma_bounds(&self)
        requires
            self.wf(),
        ensures
            0 <= self.pos() <= self.bytes().len(),
    {
    }

    /// How many bytes are left to read.
    pub open spec fn remaining(&self) -> int {
        self.bytes().len() - self.pos()
    }

    pub fn new_from_slice(d: &'a [u8]) -> (r: Buffer<'a>)
        ensures
            r.wf(),
            r.bytes() == d@,
            r.pos() == 0,
    {
        Buffer { data: d, offset: 0, len: d.len() }
    }

    fn check_size(&self, size: usize) -> (r: Result<()>)
        requires
            self.wf(),
        ensures
            r is Ok <==> size <= self.remaining(),
            r is Err ==> r->Err_0 == Error::TooShort,
    {
        if self.len - self.offset < size {
            Err(Error::TooShort)
        } else {
            Ok(())
        }
    }

    /// Moves the cursor to `offset`, which may not lie past the end.
    pub fn set_offset(&mut self, offset: usize) -> (r: Result<()>)
        requires
            old(self).wf(),
        ensures
            final(self).wf(),
            final(self).bytes() == old(self).bytes(),
            r is Ok <==> offset <= old(self).bytes().len(),
            r is Ok ==> final(self).pos() == offset,
            r is Err ==> r->Err_0 == Error::TooShort && final(self).pos() == old(self).pos(),
    {
        if offset > self.data.len() {
            Err(Error::TooShort)
        } else {
            self.offset = offset;
            Ok(())
        }
    }

    pub fn get_offset(&mut self) -> (r: usize)
        requires
            old(self).wf(),
        ensures
            *final(self) == *old(self),
            r == old(self).pos(),
    {
        self.offset
    }

    /// The number of bytes that remain to be read.
    pub fn left(&mut self) -> (r: usize)
        requires
            old(self).wf(),
        ensures
            *final(self) == *old(self),
            r == old(self).remaining(),
    {
        self.len - self.offset
    }

    /// Reads `bytes` bytes, or fails with `TooShort` and reads nothing.
    pub fn get_bytes(&mut self, bytes: usize) -> (r: Result<Vec<u8>>)
        requires
            old(self).wf(),
        ensures
            final(self).wf(),
            final(self).bytes() == old(self).bytes(),
            r is Ok <==> bytes <= old(self).remaining(),
            r is Ok ==> r->Ok_0@ == old(self).bytes().subrange(old(self).pos(), old(self).pos() + bytes)
                && final(self).pos() == old(self).pos() + bytes,
            r is Err ==> r->Err_0 == Error::TooShort && final(self).pos() == old(self).pos(),
    {
        self.check_size(bytes)?;
        let v = slice_to_vec(slice_subrange(self.data, self.offset, self.offset + bytes));
        self.offset += bytes;
        Ok(v)
    }

    /// Reads a big-endian 32-bit integer.
    pub fn get_32(&mut self) -> (r: Result<u32>)
        requires
            old(self).wf(),
        ensures
            final(self).wf(),
            final(self).bytes() == old(self).bytes(),
            r is Ok <==> 4 <= old(self).remaining(),
            r is Ok ==> r->Ok_0 == be32(old(self).bytes(), old(self).pos())
                && final(self).pos() == old(self).pos() + 4,
            r is Err ==> r->Err_0 == Error::TooShort && final(self).pos() == old(self).pos(),
    {
        self.check_size(4)?;
        let o = self.offset;
        let v = (self.data[o] as u32) * 0x1000000 + (self.data[o + 1] as u32) * 0x10000
            + (self.data[o + 2] as u32) * 0x100 + (self.data[o + 3] as u32);
        self.offset += 4;
        Ok(v)
    }

    /// Reads a big-endian 24-bit integer.
    pub fn get_24(&mut self) -> (r: Result<u32>)
        requires
            old(self).wf(),
        ensures
            final(self).wf(),
            final(self).bytes() == old(self).bytes(),
            r is Ok <==> 3 <= old(self).remaining(),
            r is Ok ==> r->Ok_0 == be24(old(self).bytes(), old(self).pos())
                && final(self).pos() == old(self).pos() + 3,
            r is Err ==> r->Err_0 == Error::TooShort && final(self).pos() == old(self).pos(),
    {
        self.check_size(3)?;
        let o = self.offset;
        let v = (self.data[o] as u32) * 0x10000 + (self.data[o + 1] as u32) * 0x100
            + (self.data[o + 2] as u32);
        self.offset += 3;
        Ok(v)
    }

    /// Reads a big-endian 16-bit integer.
    pub fn get_16(&mut self) -> (r: Result<u16>)
        requires
            old(self).wf(),
        ensures
            final(self).wf(),
            final(self).bytes() == old(self).bytes(),
            r is Ok <==> 2 <= old(self).remaining(),
            r is Ok ==> r->Ok_0 == be16(old(self).bytes(), old(self).pos())
                && final(self).pos() == old(self).pos() + 2,
            r is Err ==> r->Err_0 == Error::TooShort && final(self).pos() == old(self).pos(),
    {
        self.check_size(2)?;
        let o = self.offset;
        let v = (self.data[o] as u16) * 0x100 + (self.data[o + 1] as u16);
        self.offset += 2;
        Ok(v)
    }

    /// Reads one byte.
    pub fn get_8(&mut self) -> (r: Result<u8>)
        requires
            old(self).wf(),
        ensures
            final(self).wf(),
            final(self).bytes() == old(self).bytes(),
            r is Ok <==> 1 <= old(self).remaining(),
            r is Ok ==> r->Ok_0 == old(self).bytes()[old(self).pos()]
                && final(self).pos() == old(self).pos() + 1,
            r is Err ==> r->Err_0 == Error::TooShort && final(self).pos() == old(self).pos(),
    {
        self.check_size(1)?;
        let v = self.data[self.offset];
        self.offset += 1;
        Ok(v)
    }

    /// Reads sixteen bytes as an IPv6 address.
    pub fn get_ipv6addr(&mut self) -> (r: Result<Ipv6Addr>)
        requires
            old(self).wf(),
        ensures
            final(self).wf(),
            final(self).bytes() == old(self).bytes(),
            r is Ok <==> 16 <= old(self).remaining(),
            r is Ok ==> r->Ok_0@ == old(self).bytes().subrange(old(self).pos(), old(self).pos() + 16)
                && final(self).pos() == old(self).pos() + 16,
            r is Err ==> r->Err_0 == Error::TooShort && final(self).pos() == old(self).pos(),
    {
        let x = self.get_bytes(16)?;
        let a = Ipv6Addr::from_slice(x.as_slice());
        assert(x@.subrange(0, 16) =~= x@);
        Ok(a)
    }
}

} // verus!
