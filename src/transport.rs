use vstd::prelude::*;

use crate::bytes::copy_bytes;

verus! {

/// A transport that serves a fixed byte sequence to its reader and accepts
/// and discards every write. Once the bytes run out each read returns nothing,
/// which the reader sees as a clean end of stream.
pub struct ReplayTransport {
    content: Vec<u8>,
    pos: usize,
}

impl ReplayTransport {
    /// The bytes not read yet.
    pub closed spec fn view(&self) -> Seq<u8> {
        self.content@.subrange(self.pos as int, self.content@.len() as int)
    }

    pub closed spec fn well_formed(&self) -> bool {
        self.pos <= self.content@.len()
    }

    pub fn new(data: &[u8]) -> (r: Self)
        ensures
            r.well_formed(),
            r@ == data@,
    {
        let r = ReplayTransport { content: copy_bytes(data), pos: 0 };
        assert(r@ =~= data@);
        r
    }

    /// Number of bytes left to read.
    pub fn remaining(&self) -> (r: usize)
        requires
            self.well_formed(),
        ensures
            r == self@.len(),
    {
        self.content.len() - self.pos
    }

    /// Reads up to `n` bytes: `min(n, remaining)` of them, from the front of
    /// what is left.
    pub fn read(&mut self, n: usize) -> (r: Vec<u8>)
        requires
            old(self).well_formed(),
        ensures
            final(self).well_formed(),
            r@.len() == if n < old(self)@.len() { n as nat } else { old(self)@.len() },
            r@ == old(self)@.subrange(0, r@.len() as int),
            final(self)@ == old(self)@.subrange(r@.len() as int, old(self)@.len() as int),
    {
        let left = self.content.len() - self.pos;
        let take = if n < left { n } else { left };
        let mut r: Vec<u8> = Vec::with_capacity(take);
        let mut i: usize = 0;
        while i < take
            invariant
                self.pos + take <= self.content@.len(),
                self.content@.len() <= usize::MAX,
                i <= take,
                r@ == self.content@.subrange(self.pos as int, self.pos + i),
            decreases take - i,
        {
            r.push(self.content[self.pos + i]);
            i = i + 1;
            proof {
                assert(r@ =~= self.content@.subrange(self.pos as int, self.pos + i));
            }
        }
        let ghost before = *self;
        self.pos = self.pos + take;
        proof {
            assert(r@ =~= before@.subrange(0, r@.len() as int));
            assert(self@ =~= before@.subrange(r@.len() as int, before@.len() as int));
        }
        r
    }

    /// Accepts the whole buffer and drops it.
    pub fn write(&mut self, buf: &[u8]) -> (r: usize)
        ensures
            r == buf@.len(),
            *final(self) == *old(self),
    {
        buf.len()
    }
}

/// The log of an instrumented transport: every byte that the inner transport
/// reported as written, in the order it was written.
pub struct WriteCapture {
    pub written: Vec<u8>,
}

impl WriteCapture {
    pub fn new() -> (r: Self)
        ensures
            r.written@ == Seq::<u8>::empty(),
    {
        WriteCapture { written: Vec::new() }
    }

    /// Records a write of `buf` of which the inner transport took the first
    /// `bytes_written` bytes.
    pub fn record(&mut self, buf: &[u8], bytes_written: usize)
        requires
            bytes_written <= buf@.len(),
        ensures
            final(self).written@ == old(self).written@ + buf@.subrange(0, bytes_written as int),
    {
        let ghost before = self.written@;
        let mut i: usize = 0;
        while i < bytes_written
            invariant
                bytes_written <= buf@.len(),
                i <= bytes_written,
                self.written@ == before + buf@.subrange(0, i as int),
            decreases bytes_written - i,
        {
            self.written.push(buf[i]);
            i = i + 1;
            proof {
                assert(self.written@ =~= before + buf@.subrange(0, i as int));
            }
        }
    }
}

} // verus!
