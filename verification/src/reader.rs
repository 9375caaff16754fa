use vstd::prelude::*;

use crate::memcard::error::unexpected_eof;
use crate::memcard::MemcardError;

verus! {

/// A cursor over a byte slice, read from the front.
///
/// Its view is the sequence of bytes that are still to be read.
pub struct ByteReader<'a> {
    data: &'a [u8],
    pos: usize,
}

impl<'a> ByteReader<'a> {
    #[verifier::type_invariant]
    spec fn inv(&self) -> bool {
        self.pos <= self.data@.len()
    }

    pub closed spec fn remaining(&self) -> Seq<u8> {
        self.data@.subrange(self.pos as int, self.data@.len() as int)
    }
}

impl<'a> View for ByteReader<'a> {
    type V = Seq<u8>;

    open spec fn view(&self) -> Seq<u8> {
        self.remaining()
    }
}

impl<'a> ByteReader<'a> {
    /// A reader positioned at the start of `data`.
    pub fn new(data: &'a [u8]) -> (r: Self)
        ensures
            r@ == data@,
    {
        let r = ByteReader { data, pos: 0 };
        assert(r@ =~= data@);
        r
    }

    /// Number of bytes left to read.
    pub fn remaining_len(&self) -> (n: usize)
        ensures
            n == self@.len(),
    {
        proof {
            use_type_invariant(self);
        }
        self.data.len() - self.pos
    }

    /// Fills `buf` with the next `buf.len()` bytes.
    ///
    /// When fewer bytes are left, the reader is emptied and an I/O error
    /// (unexpected end of file) is returned, as `read_exact` does on a slice.
    pub fn read_exact(&mut self, buf: &mut [u8]) -> (res: Result<(), MemcardError>)
        ensures
            res is Ok <==> old(buf)@.len() <= old(self)@.len(),
            final(buf)@.len() == old(buf)@.len(),
            res is Ok ==> {
                &&& final(buf)@ == old(self)@.take(old(buf)@.len() as int)
                &&& final(self)@ == old(self)@.skip(old(buf)@.len() as int)
            },
            res is Err ==> {
                &&& final(self)@ == Seq::<u8>::empty()
                &&& res->Err_0 is Io
            },
    {
        proof {
            use_type_invariant(&*self);
        }
        let n = buf.len();
        if n > self.data.len() - self.pos {
            self.pos = self.data.len();
            proof {
                assert(self@ =~= Seq::<u8>::empty());
            }
            return Err(MemcardError::Io(unexpected_eof()));
        }
        let start = self.pos;
        let mut i: usize = 0;
        while i < n
            invariant
                i <= n,
                n == buf@.len(),
                n == old(buf)@.len(),
                start == self.pos,
                self.data == old(self).data,
                self.pos == old(self).pos,
                start + n <= self.data.len(),
                forall|j: int| 0 <= j < i ==> buf@[j] == self.data@[start + j],
            decreases n - i,
        {
            buf[i] = self.data[start + i];
            i = i + 1;
        }
        self.pos = start + n;
        proof {
            assert(buf@ =~= old(self)@.take(n as int));
            assert(self@ =~= old(self)@.skip(n as int));
        }
        Ok(())
    }
}

} // verus!
