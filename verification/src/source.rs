//! The pull-based byte source abstraction, and two concrete sources:
//! one backed by memory and one that always fails.

use vstd::prelude::*;

verus! {

/// A pull-based byte source: one operation reads up to `buf.len()` bytes into
/// the front of `buf` and reports how many were read. `Ok(0)` on a non-empty
/// `buf` means the stream is exhausted; `Err` reports an underlying failure
/// and leaves the stream where it was, so that a retry sees the same bytes.
pub trait ByteSource {
    /// The source's own failure type; opaque to any wrapper.
    type Err;

    /// The bytes this source has not yet produced.
    spec fn remaining(&self) -> Seq<u8>;

    /// True of a source whose reads always succeed.
    spec fn infallible(&self) -> bool;

    /// True of a source whose next read fails.
    spec fn fails_next(&self) -> bool;

    /// The error the next read reports, when it fails.
    spec fn next_err(&self) -> Self::Err;

    fn read(&mut self, buf: &mut Vec<u8>) -> (r: Result<usize, Self::Err>)
        ensures
            final(buf)@.len() == old(buf)@.len(),
            old(self).infallible() ==> r is Ok && final(self).infallible(),
            old(self).fails_next() ==> r == Err::<usize, Self::Err>(old(self).next_err()),
            match r {
                Ok(n) => {
                    &&& n <= old(buf)@.len()
                    &&& n <= old(self).remaining().len()
                    &&& final(buf)@ == old(self).remaining().take(n as int)
                        + old(buf)@.skip(n as int)
                    &&& final(self).remaining() == old(self).remaining().skip(n as int)
                    &&& (n == 0 ==> old(self).remaining().len() == 0 || old(buf)@.len() == 0)
                },
                Err(_) => final(self).remaining() == old(self).remaining(),
            },
    ;
}

/// An in-memory source: yields the bytes of a vector in order, then reports a
/// clean end of stream. It never fails.
pub struct MemSource {
    data: Vec<u8>,
    pos: usize,
}

impl MemSource {
    pub fn new(data: Vec<u8>) -> (r: MemSource)
        ensures
            r.remaining() == data@,
            r.infallible(),
    {
        MemSource { data, pos: 0 }
    }
}

impl ByteSource for MemSource {
    type Err = u64;

    closed spec fn remaining(&self) -> Seq<u8> {
        if self.pos <= self.data@.len() {
            self.data@.skip(self.pos as int)
        } else {
            Seq::empty()
        }
    }

    open spec fn infallible(&self) -> bool {
        true
    }

    open spec fn fails_next(&self) -> bool {
        false
    }

    /// Never fails, so there is no error to name.
    closed spec fn next_err(&self) -> u64 {
        0
    }

    fn read(&mut self, buf: &mut Vec<u8>) -> (r: Result<usize, u64>) {
        let avail: usize = if self.pos <= self.data.len() {
            self.data.len() - self.pos
        } else {
            0
        };
        let n: usize = if buf.len() < avail {
            buf.len()
        } else {
            avail
        };
        let ghost buf0 = buf@;
        let mut k: usize = 0;
        while k < n
            invariant
                k <= n,
                n <= buf0.len(),
                n == 0 || self.pos + n <= self.data@.len(),
                self.pos + n <= usize::MAX,
                buf@.len() == buf0.len(),
                forall|j: int| 0 <= j < k ==> buf@[j] == self.data@[self.pos + j],
                forall|j: int| k <= j < buf0.len() ==> buf@[j] == buf0[j],
            decreases n - k,
        {
            buf[k] = self.data[self.pos + k];
            k = k + 1;
        }
        self.pos = self.pos + n;
        proof {
            assert(buf@ =~= old(self).remaining().take(n as int) + buf0.skip(n as int));
            assert(self.remaining() =~= old(self).remaining().skip(n as int));
        }
        Ok(n)
    }
}

/// A source that fails on every read, handing back its error code. Its
/// logical stream is empty: it never produces a byte.
pub struct FailSource {
    code: u64,
}

impl FailSource {
    pub fn new(code: u64) -> (r: FailSource)
        ensures
            r.remaining() == Seq::<u8>::empty(),
            r.fails_next(),
            r.next_err() == code,
    {
        FailSource { code }
    }
}

impl ByteSource for FailSource {
    type Err = u64;

    closed spec fn remaining(&self) -> Seq<u8> {
        Seq::empty()
    }

    open spec fn infallible(&self) -> bool {
        false
    }

    open spec fn fails_next(&self) -> bool {
        true
    }

    closed spec fn next_err(&self) -> u64 {
        self.code
    }

    fn read(&mut self, buf: &mut Vec<u8>) -> (r: Result<usize, u64>)
        ensures
            *final(self) == *old(self),
    {
        Err(self.code)
    }
}

} // verus!
