//! An in-memory byte source that the decoders read from, front to back.
use vstd::prelude::*;

verus! {

/// A cursor over a byte buffer: the bytes before the position have been
/// read, the bytes from the position on are still to be read.
pub struct ByteReader {
    data: Vec<u8>,
    pos: usize,
}

impl ByteReader {
    #[verifier::type_invariant]
    spec fn position_in_bounds(&self) -> bool {
        self.pos <= self.data.len()
    }

    /// The whole buffer, read part included.
    pub closed spec fn data(&self) -> Seq<u8> {
        self.data@
    }

    /// How many bytes have been read (never more than the buffer holds).
    pub closed spec fn pos(&self) -> nat {
        if self.pos <= self.data.len() {
            self.pos as nat
        } else {
            self.data@.len()
        }
    }

    /// The bytes that are still to be read.
    pub open spec fn rest(&self) -> Seq<u8> {
        self.data().subrange(self.pos() as int, self.data().len() as int)
    }

    /// The position never runs past the end of the buffer.
    pub proof fn lemma_pos_in_bounds(&self)
        ensures
            self.pos() <= self.data().len(),
    {
    }

    /// A reader at the start of `data`.
    pub fn new(data: Vec<u8>) -> (r: ByteReader)
        ensures
            r.data() == data@,
            r.pos() == 0,
            r.rest() == data@,
    {
        let r = ByteReader { data, pos: 0 };
        r
    }

    /// The number of bytes read so far.
    pub fn position(&self) -> (r: usize)
        ensures
            r == self.pos(),
            self.rest().len() == self.data().len() - r,
    {
        proof {
            use_type_invariant(self);
        }
        self.pos
    }

    /// Whether every byte has been read.
    pub fn is_at_end(&self) -> (r: bool)
        ensures
            r == (self.rest().len() == 0),
    {
        proof {
            use_type_invariant(self);
        }
        self.pos == self.data.len()
    }

    /// Reads one byte; `None`, and nothing read, when no byte is left.
    pub fn read_u8(&mut self) -> (r: Option<u8>)
        ensures
            final(self).data() == old(self).data(),
            old(self).rest().len() == 0 ==> r is None && final(self).pos() == old(self).pos(),
            old(self).rest().len() > 0 ==> r == Some(old(self).rest()[0]) && final(self).pos()
                == old(self).pos() + 1,
            final(self).rest() == old(self).rest().skip(final(self).pos() - old(self).pos()),
    {
        proof {
            use_type_invariant(&*self);
        }
        if self.pos < self.data.len() {
            let b = self.data[self.pos];
            self.pos = self.pos + 1;
            Some(b)
        } else {
            None
        }
    }

    /// Reads up to `n` bytes, as `Read::read` does into an `n`-byte buffer:
    /// all that is left when fewer than `n` bytes are left.
    pub fn read(&mut self, n: usize) -> (r: Vec<u8>)
        ensures
            final(self).data() == old(self).data(),
            r@.len() == if old(self).rest().len() < n { old(self).rest().len() } else { n as nat },
            r@ == old(self).rest().take(r@.len() as int),
            final(self).pos() == old(self).pos() + r@.len(),
            final(self).rest() == old(self).rest().skip(r@.len() as int),
    {
        proof {
            use_type_invariant(&*self);
        }
        let left = self.data.len() - self.pos;
        let count = if left < n { left } else { n };
        let ghost start = self.pos as int;
        let mut out: Vec<u8> = Vec::with_capacity(count);
        let mut i: usize = 0;
        while i < count
            invariant
                i <= count,
                count <= left,
                left == self.data.len() - start,
                0 <= start <= self.data.len(),
                self.pos == start,
                out@ == self.data@.subrange(start, start + i),
            decreases count - i,
        {
            out.push(self.data[self.pos + i]);
            i = i + 1;
        }
        self.pos = self.pos + count;
        assert(self.data@.subrange(self.pos as int, self.data@.len() as int) =~= old(
            self,
        ).rest().skip(count as int));
        out
    }

    /// Reads exactly `n` bytes, as `Read::read_exact` does; `None`, and
    /// nothing read, when fewer than `n` bytes are left.
    pub fn read_exact(&mut self, n: usize) -> (r: Option<Vec<u8>>)
        ensures
            final(self).data() == old(self).data(),
            old(self).rest().len() < n ==> r is None && final(self).pos() == old(self).pos()
                && final(self).rest() == old(self).rest(),
            old(self).rest().len() >= n ==> (r matches Some(v) && v@ == old(self).rest().take(
                n as int,
            ) && final(self).pos() == old(self).pos() + n && final(self).rest() == old(
                self,
            ).rest().skip(n as int)),
    {
        proof {
            use_type_invariant(&*self);
        }
        if self.data.len() - self.pos < n {
            None
        } else {
            Some(self.read(n))
        }
    }
}

} // verus!
