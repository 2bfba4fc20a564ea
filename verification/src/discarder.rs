//! Adapter that implements forward seeking on sequential-only resources by
//! reading into a bounded scratch buffer and discarding the result until the
//! requested distance has been consumed.

use vstd::prelude::*;

use crate::ByteSource;
use crate::ByteStream;
use crate::IoError;
use crate::SeekForward;

verus! {

/// Bytes the discarding adapter consumes per scratch read.
pub(crate) const SCRATCH_LEN: usize = 4096;

/// Wraps a sequential-only source, deriving forward seeks from reads: a seek
/// by N consumes and discards exactly N bytes.  A source that ends before the
/// distance is consumed makes the seek fail with an explicit end-of-stream
/// error rather than looping.
pub struct Discarder<R: ByteSource> {
    reader: R,
}

impl<R: ByteSource> Discarder<R> {
    /// Wraps `reader`.
    pub fn new(reader: R) -> (r: Discarder<R>)
        ensures
            r.bytes() == reader.bytes(),
            r.position() == reader.position(),
            r.reliable() == reader.reliable(),
            r.inv() == reader.inv(),
    {
        Discarder { reader }
    }

    /// Recovers the wrapped source.
    pub fn into_inner(self) -> (r: R)
        ensures
            r.bytes() == self.bytes(),
            r.position() == self.position(),
            r.reliable() == self.reliable(),
            r.inv() == self.inv(),
    {
        self.reader
    }
}

impl<R: ByteSource> ByteStream for Discarder<R> {
    closed spec fn bytes(&self) -> Seq<u8> {
        self.reader.bytes()
    }

    closed spec fn position(&self) -> int {
        self.reader.position()
    }

    closed spec fn reliable(&self) -> bool {
        self.reader.reliable()
    }

    closed spec fn inv(&self) -> bool {
        self.reader.inv()
    }

    proof fn inv_facts(&self) {
        self.reader.inv_facts();
    }
}

impl<R: ByteSource> ByteSource for Discarder<R> {
    fn read(&mut self, buf: &mut Vec<u8>, max: usize) -> (r: Result<usize, IoError>) {
        self.reader.read(buf, max)
    }
}

impl<R: ByteSource> SeekForward for Discarder<R> {
    fn seek_forward(&mut self, offset: u64) -> (r: Result<(), IoError>) {
        let mut buf: Vec<u8> = vec![0u8; SCRATCH_LEN];
        let mut left: u64 = offset;
        proof {
            old(self).reader.inv_facts();
        }
        while left > 0
            invariant
                buf@.len() == SCRATCH_LEN,
                left <= offset,
                self.reader.inv(),
                self.reader.position() <= self.reader.bytes().len(),
                self.reader.bytes() == old(self).reader.bytes(),
                self.reader.reliable() == old(self).reader.reliable(),
                self.reader.position() == old(self).reader.position() + offset - left,
                old(self).reader.position() + offset <= old(self).reader.bytes().len()
                    ==> self.reader.position() + left <= self.reader.bytes().len(),
            decreases left,
        {
            let toread: usize = if left < SCRATCH_LEN as u64 {
                left as usize
            } else {
                SCRATCH_LEN
            };
            match self.reader.read(&mut buf, toread) {
                Ok(n) => {
                    if n == 0 {
                        proof {
                            self.reader.inv_facts();
                        }
                        return Err(IoError::UnexpectedEof);
                    }
                    left = left - n as u64;
                },
                Err(_) => {
                    return Err(IoError::Failed);
                },
            }
        }
        Ok(())
    }
}

} // verus!
