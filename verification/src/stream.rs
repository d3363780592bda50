//! A stream of bytes held in memory, read from the front.

use vstd::prelude::*;
use vstd::slice::*;

verus! {

/// Bytes to be read, and how many of them have been read so far.
pub struct ByteStream {
    data: Vec<u8>,
    pos: usize,
}

impl ByteStream {
    #[verifier::type_invariant]
    spec fn well_formed(&self) -> bool {
        self.pos <= self.data@.len()
    }

    /// The bytes that have not been read yet.
    pub closed spec fn remaining(&self) -> Seq<u8> {
        self.data@.skip(self.pos as int)
    }

    /// The number of bytes read so far.
    pub closed spec fn consumed(&self) -> nat {
        self.pos as nat
    }

    /// A stream that holds `data`, none of it read.
    pub fn new(data: Vec<u8>) -> (stream: ByteStream)
        ensures
            stream.remaining() == data@,
            stream.consumed() == 0,
    {
        let stream = ByteStream { data, pos: 0 };
        assert(stream.data@.skip(0) =~= data@);
        stream
    }

    /// The number of bytes read so far.
    pub fn position(&self) -> (pos: usize)
        ensures
            pos == self.consumed(),
    {
        self.pos
    }

    /// The number of bytes that are left to read.
    pub fn available(&self) -> (len: usize)
        ensures
            len == self.remaining().len(),
    {
        proof {
            use_type_invariant(self);
        }
        self.data.len() - self.pos
    }

    /// Reads exactly `n` bytes. Where fewer are left the read fails, and
    /// takes what was left.
    pub fn read_exact(&mut self, n: usize) -> (chunk: Option<Vec<u8>>)
        ensures
            match chunk {
                Some(bytes) => {
                    &&& n <= old(self).remaining().len()
                    &&& bytes@ == old(self).remaining().take(n as int)
                    &&& final(self).remaining() == old(self).remaining().skip(n as int)
                    &&& final(self).consumed() == old(self).consumed() + n
                },
                None => {
                    &&& n > old(self).remaining().len()
                    &&& final(self).remaining() == Seq::<u8>::empty()
                    &&& final(self).consumed() == old(self).consumed() + old(
                        self,
                    ).remaining().len()
                },
            },
    {
        proof {
            use_type_invariant(&*self);
        }
        let left = self.data.len() - self.pos;
        if n <= left {
            let start = self.pos;
            let bytes = slice_to_vec(slice_subrange(self.data.as_slice(), start, start + n));
            self.pos = start + n;
            assert(bytes@ =~= old(self).remaining().take(n as int));
            assert(self.remaining() =~= old(self).remaining().skip(n as int));
            Some(bytes)
        } else {
            self.pos = self.data.len();
            assert(self.remaining() =~= Seq::<u8>::empty());
            None
        }
    }
}

} // verus!
