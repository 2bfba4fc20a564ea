//! In-memory resources with arbitrary positioning: the default derivation of
//! forward seeking for random-access resources is simply "set position to
//! current + N".

use vstd::prelude::*;

use crate::ByteSink;
use crate::ByteSource;
use crate::ByteStream;
use crate::IoError;
use crate::SeekForward;
use crate::splice;

verus! {

/// A random-access byte source backed by memory.
pub struct MemSource {
    data: Vec<u8>,
    pos: usize,
}

impl MemSource {
    /// A source positioned at the start of `data`.
    pub fn new(data: Vec<u8>) -> (r: MemSource)
        ensures
            r.bytes() == data@,
            r.position() == 0,
            r.reliable(),
            r.inv(),
    {
        MemSource { data, pos: 0 }
    }

    /// Recovers the underlying bytes.
    pub fn into_inner(self) -> (r: Vec<u8>)
        ensures
            r@ == self.bytes(),
    {
        self.data
    }
}

impl ByteStream for MemSource {
    closed spec fn bytes(&self) -> Seq<u8> {
        self.data@
    }

    closed spec fn position(&self) -> int {
        self.pos as int
    }

    closed spec fn reliable(&self) -> bool {
        true
    }

    closed spec fn inv(&self) -> bool {
        self.pos <= self.data@.len()
    }

    proof fn inv_facts(&self) {
    }
}

impl SeekForward for MemSource {
    fn seek_forward(&mut self, offset: u64) -> (r: Result<(), IoError>) {
        if offset <= (self.data.len() - self.pos) as u64 {
            self.pos = self.pos + offset as usize;
            Ok(())
        } else {
            Err(IoError::UnexpectedEof)
        }
    }
}

impl ByteSource for MemSource {
    fn read(&mut self, buf: &mut Vec<u8>, max: usize) -> (r: Result<usize, IoError>) {
        let remaining = self.data.len() - self.pos;
        let n = if max < remaining {
            max
        } else {
            remaining
        };
        let mut i: usize = 0;
        while i < n
            invariant
                0 <= i <= n,
                n <= buf@.len(),
                self.pos + n <= self.data@.len(),
                self.data@.len() <= usize::MAX,
                buf@.len() == old(buf)@.len(),
                forall|j: int| 0 <= j < i ==> buf@[j] == self.data@[self.pos + j],
                self == old(self),
            decreases n - i,
        {
            let b = self.data[self.pos + i];
            buf[i] = b;
            i += 1;
        }
        self.pos = self.pos + n;
        proof {
            assert(buf@.subrange(0, n as int) =~= old(self).bytes().subrange(
                old(self).position(),
                old(self).position() + n,
            ));
        }
        Ok(n)
    }
}

/// A random-access byte sink backed by memory.  The destination is
/// fixed-size: the caller pre-sizes it, and writes must fall inside it.
pub struct MemSink {
    data: Vec<u8>,
    pos: usize,
}

impl MemSink {
    /// A sink positioned at the start of a destination holding `data`.
    pub fn new(data: Vec<u8>) -> (r: MemSink)
        ensures
            r.bytes() == data@,
            r.position() == 0,
            r.reliable(),
            r.inv(),
    {
        MemSink { data, pos: 0 }
    }

    /// Recovers the destination contents.
    pub fn into_inner(self) -> (r: Vec<u8>)
        ensures
            r@ == self.bytes(),
    {
        self.data
    }
}

impl ByteStream for MemSink {
    closed spec fn bytes(&self) -> Seq<u8> {
        self.data@
    }

    closed spec fn position(&self) -> int {
        self.pos as int
    }

    closed spec fn reliable(&self) -> bool {
        true
    }

    closed spec fn inv(&self) -> bool {
        self.pos <= self.data@.len()
    }

    proof fn inv_facts(&self) {
    }
}

impl SeekForward for MemSink {
    fn seek_forward(&mut self, offset: u64) -> (r: Result<(), IoError>) {
        if offset <= (self.data.len() - self.pos) as u64 {
            self.pos = self.pos + offset as usize;
            Ok(())
        } else {
            Err(IoError::UnexpectedEof)
        }
    }
}

impl ByteSink for MemSink {
    fn write_all(&mut self, data: &[u8]) -> (r: Result<(), IoError>) {
        if data.len() > self.data.len() - self.pos {
            return Err(IoError::Failed);
        }
        let n = data.len();
        let mut i: usize = 0;
        while i < n
            invariant
                0 <= i <= n,
                n == data@.len(),
                self.pos == old(self).position(),
                self.pos + n <= self.data@.len(),
                self.data@.len() <= usize::MAX,
                self.data@.len() == old(self).bytes().len(),
                forall|j: int|
                    0 <= j < self.data@.len() && !(self.pos <= j < self.pos + i) ==> self.data@[j]
                        == old(self).bytes()[j],
                forall|j: int| 0 <= j < i ==> self.data@[self.pos + j] == data@[j],
            decreases n - i,
        {
            let p = self.pos + i;
            let b = data[i];
            self.data[p] = b;
            i += 1;
        }
        self.pos = self.pos + n;
        proof {
            assert(self.bytes() =~= splice(old(self).bytes(), old(self).position(), data@));
        }
        Ok(())
    }

    fn flush(&mut self) -> (r: Result<(), IoError>) {
        Ok(())
    }
}

} // verus!
