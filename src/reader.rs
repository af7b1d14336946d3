use vstd::prelude::*;
use crate::error::DataError;

verus! {

/// The big-endian unsigned value of the four bytes of `s` starting at `i`.
pub open spec fn be_u32_at(s: Seq<u8>, i: int) -> int {
    s[i] as int * 16777216 + s[i + 1] as int * 65536 + s[i + 2] as int * 256 + s[i + 3] as int
}

/// A forward-only reader over a byte slice.
pub struct ByteReader<'a> {
    bytes: &'a [u8],
    pos: usize,
}

impl<'a> ByteReader<'a> {
    /// The bytes not yet consumed.
    pub closed spec fn remaining(&self) -> Seq<u8> {
        self.bytes@.subrange(self.pos as int, self.bytes@.len() as int)
    }

    pub closed spec fn wf(&self) -> bool {
        self.pos <= self.bytes@.len()
    }

    pub fn new(bytes: &'a [u8]) -> (r: ByteReader<'a>)
        ensures
            r.wf(),
            r.remaining() == bytes@,
    {
        let r = ByteReader { bytes, pos: 0 };
        assert(r.remaining() =~= bytes@);
        r
    }

    /// How many bytes are left.
    pub fn remaining_len(&self) -> (r: usize)
        requires
            self.wf(),
        ensures
            r == self.remaining().len(),
    {
        self.bytes.len() - self.pos
    }

    /// Consumes one byte.
    pub fn read_byte(&mut self) -> (r: Result<u8, DataError>)
        requires
            old(self).wf(),
        ensures
            final(self).wf(),
            old(self).remaining().len() >= 1 ==> r == Ok::<u8, DataError>(old(self).remaining()[0])
                && final(self).remaining() == old(self).remaining().subrange(1, old(self).remaining().len() as int),
            old(self).remaining().len() < 1 ==> r == Err::<u8, DataError>(DataError::TruncatedInput)
                && final(self).remaining() == old(self).remaining(),
    {
        if self.bytes.len() - self.pos < 1 {
            return Err(DataError::TruncatedInput);
        }
        let b = self.bytes[self.pos];
        self.pos = self.pos + 1;
        assert(self.remaining() =~= old(self).remaining().subrange(1, old(self).remaining().len() as int));
        Ok(b)
    }

    /// Consumes four bytes and reads them as a big-endian `u32`.
    pub fn read_u32(&mut self) -> (r: Result<u32, DataError>)
        requires
            old(self).wf(),
        ensures
            final(self).wf(),
            old(self).remaining().len() >= 4 ==> r is Ok
                && r->Ok_0 as int == be_u32_at(old(self).remaining(), 0)
                && final(self).remaining() == old(self).remaining().subrange(4, old(self).remaining().len() as int),
            old(self).remaining().len() < 4 ==> r == Err::<u32, DataError>(DataError::TruncatedInput)
                && final(self).remaining() == old(self).remaining(),
    {
        if self.bytes.len() - self.pos < 4 {
            return Err(DataError::TruncatedInput);
        }
        let p = self.pos;
        let b0 = self.bytes[p] as u32;
        let b1 = self.bytes[p + 1] as u32;
        let b2 = self.bytes[p + 2] as u32;
        let b3 = self.bytes[p + 3] as u32;
        self.pos = p + 4;
        assert(self.remaining() =~= old(self).remaining().subrange(4, old(self).remaining().len() as int));
        Ok(b0 * 16777216 + b1 * 65536 + b2 * 256 + b3)
    }

    /// Consumes every byte that is left; an exhausted reader gives an empty vector.
    pub fn read_remaining(&mut self) -> (r: Vec<u8>)
        requires
            old(self).wf(),
        ensures
            final(self).wf(),
            r@ == old(self).remaining(),
            final(self).remaining().len() == 0,
    {
        let mut out: Vec<u8> = Vec::new();
        let n = self.bytes.len();
        while self.pos < n
            invariant
                self.wf(),
                n == self.bytes@.len(),
                self.bytes == old(self).bytes,
                old(self).pos <= self.pos,
                out@ == self.bytes@.subrange(old(self).pos as int, self.pos as int),
            decreases n - self.pos,
        {
            out.push(self.bytes[self.pos]);
            self.pos = self.pos + 1;
            assert(out@ =~= self.bytes@.subrange(old(self).pos as int, self.pos as int));
        }
        assert(self.remaining() =~= Seq::<u8>::empty());
        out
    }
}

} // verus!
