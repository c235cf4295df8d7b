//! A byte-oriented input source: a buffer and a read position. The decoder
//! consumes it with exact-count reads and fails distinctly at end-of-stream,
//! never reading past what a frame needs.

use vstd::prelude::*;

use crate::error::DecodeError;

verus! {

/// A readable byte stream over an owned buffer.
pub struct ByteStream {
    data: Vec<u8>,
    pos: usize,
}

impl ByteStream {
    /// The whole underlying buffer.
    pub closed spec fn data(self) -> Seq<u8> {
        self.data@
    }

    /// How many bytes have been consumed.
    pub closed spec fn pos(self) -> int {
        self.pos as int
    }

    /// The read position never lies past the end of the buffer.
    pub open spec fn wf(self) -> bool {
        0 <= self.pos() <= self.data().len()
    }

    /// The bytes not yet consumed.
    pub open spec fn remaining(self) -> Seq<u8> {
        self.data().skip(self.pos())
    }

    /// A stream positioned at the start of `data`.
    pub fn new(data: Vec<u8>) -> (r: ByteStream)
        ensures
            r.wf(),
            r.data() == data@,
            r.pos() == 0,
    {
        ByteStream { data, pos: 0 }
    }

    /// The current read position.
    pub fn position(&self) -> (r: usize)
        ensures
            r == self.pos(),
    {
        self.pos
    }

    /// How many bytes are left to read.
    pub fn remaining_len(&self) -> (r: usize)
        requires
            self.wf(),
        ensures
            r == self.remaining().len(),
    {
        self.data.len() - self.pos
    }

    /// Reads the next byte, or fails at end-of-stream without moving.
    pub fn read_byte(&mut self) -> (r: Result<u8, DecodeError>)
        requires
            old(self).wf(),
        ensures
            final(self).wf(),
            final(self).data() == old(self).data(),
            match r {
                Ok(b) => {
                    &&& old(self).remaining().len() >= 1
                    &&& b == old(self).remaining()[0]
                    &&& final(self).pos() == old(self).pos() + 1
                },
                Err(e) => {
                    &&& e == DecodeError::UnexpectedEof
                    &&& old(self).remaining().len() == 0
                    &&& *final(self) == *old(self)
                },
            },
    {
        if self.pos < self.data.len() {
            let b = self.data[self.pos];
            self.pos = self.pos + 1;
            Ok(b)
        } else {
            Err(DecodeError::UnexpectedEof)
        }
    }

    /// Reads exactly `count` bytes, or fails at end-of-stream without moving.
    #[verifier::loop_isolation(false)]
    pub fn read_exact(&mut self, count: usize) -> (r: Result<Vec<u8>, DecodeError>)
        requires
            old(self).wf(),
        ensures
            final(self).wf(),
            final(self).data() == old(self).data(),
            match r {
                Ok(taken) => {
                    &&& old(self).remaining().len() >= count
                    &&& taken@ == old(self).remaining().take(count as int)
                    &&& final(self).pos() == old(self).pos() + count
                },
                Err(e) => {
                    &&& e == DecodeError::UnexpectedEof
                    &&& old(self).remaining().len() < count
                    &&& *final(self) == *old(self)
                },
            },
    {
        if count > self.data.len() - self.pos {
            return Err(DecodeError::UnexpectedEof);
        }
        let mut taken: Vec<u8> = Vec::new();
        let mut i: usize = 0;
        while i < count
            invariant
                0 <= i <= count,
                self.pos + count <= self.data@.len(),
                self.data@ == old(self).data(),
                self.pos == old(self).pos(),
                taken@ == self.data@.subrange(self.pos as int, self.pos + i),
            decreases count - i,
        {
            taken.push(self.data[self.pos + i]);
            proof {
                assert(taken@ =~= self.data@.subrange(self.pos as int, self.pos + i + 1));
            }
            i = i + 1;
        }
        self.pos = self.pos + count;
        proof {
            assert(taken@ =~= old(self).remaining().take(count as int));
        }
        Ok(taken)
    }
}

} // verus!
