//! The buffered wrapper: three read interfaces over one fixed-size buffer.

use vstd::prelude::*;
use crate::source::ByteSource;

verus! {

/// Number of bytes the internal buffer holds.
pub const BUFFER_SIZE: usize = 4096;

/// Wraps a [`ByteSource`] and buffers its bytes, exposing byte-at-a-time
/// production, whole-buffer reads, and a peek/consume interface, all over the
/// same cursor and buffer.
pub struct ReadIter<S: ByteSource> {
    source: S,
    err: Option<S::Err>,
    buffer: Vec<u8>,
    len: usize,
    i: usize,
}

impl<S: ByteSource> ReadIter<S> {
    /// The wrapper is well formed: the cursor sits inside the valid region,
    /// and the backing buffer keeps its fixed size.
    pub closed spec fn wf(self) -> bool {
        &&& self.i <= self.len
        &&& self.len <= BUFFER_SIZE
        &&& self.buffer@.len() == BUFFER_SIZE
    }

    /// The buffered bytes not yet handed out.
    pub closed spec fn unread(self) -> Seq<u8> {
        self.buffer@.subrange(self.i as int, self.len as int)
    }

    /// The logical stream still ahead: buffered unread bytes, then whatever
    /// the underlying source has not yet produced.
    pub closed spec fn stream(self) -> Seq<u8> {
        self.unread() + self.source.remaining()
    }

    /// The stored failure, if byte-at-a-time production has hit one that
    /// nobody has taken yet.
    pub closed spec fn stored_err(self) -> Option<S::Err> {
        self.err
    }

    /// The wrapped source as it now stands.
    pub closed spec fn source_view(self) -> S {
        self.source
    }

    /// The unread buffered bytes are the front of the logical stream.
    pub proof fn lemma_unread_prefix(self)
        ensures
            self.unread().len() <= self.stream().len(),
            self.unread() == self.stream().take(self.unread().len() as int),
    {
        assert(self.unread() =~= self.stream().take(self.unread().len() as int));
    }

    /// Take ownership of `source`; no read happens until one is needed.
    pub fn new(source: S) -> (r: ReadIter<S>)
        ensures
            r.wf(),
            r.source_view() == source,
            r.stream() == source.remaining(),
            r.unread().len() == 0,
            r.stored_err() is None,
    {
        let mut buffer: Vec<u8> = Vec::new();
        let mut k: usize = 0;
        while k < BUFFER_SIZE
            invariant
                k <= BUFFER_SIZE,
                buffer@.len() == k,
            decreases BUFFER_SIZE - k,
        {
            buffer.push(0u8);
            k = k + 1;
        }
        let r = ReadIter { source, err: None, buffer, len: 0, i: 0 };
        proof {
            assert(r.stream() =~= r.source.remaining());
        }
        r
    }

    /// Look at the stored failure without clearing it. End of stream is not a
    /// failure: after a clean end this still answers `None`.
    pub fn last_error(&self) -> (r: &Option<S::Err>)
        ensures
            *r == self.stored_err(),
    {
        &self.err
    }

    /// Report the stored failure and clear it, or succeed if none is stored.
    /// Callers use this after an iteration loop to tell a clean end of stream
    /// from an underlying failure.
    pub fn take_last_error(&mut self) -> (r: Result<(), S::Err>)
        ensures
            final(self).stored_err() is None,
            final(self).wf() == old(self).wf(),
            final(self).unread() == old(self).unread(),
            final(self).stream() == old(self).stream(),
            final(self).source_view() == old(self).source_view(),
            match r {
                Ok(_) => old(self).stored_err() is None,
                Err(e) => old(self).stored_err() == Some(e),
            },
    {
        match self.err.take() {
            Some(e) => Err(e),
            None => Ok(()),
        }
    }

    /// Declare `amt` bytes of the last peek as processed: the cursor, and with
    /// it the logical stream, moves forward by exactly `amt`.
    pub fn consume(&mut self, amt: usize)
        requires
            old(self).wf(),
            amt <= old(self).unread().len(),
        ensures
            final(self).wf(),
            final(self).stored_err() == old(self).stored_err(),
            final(self).source_view() == old(self).source_view(),
            final(self).unread() == old(self).unread().skip(amt as int),
            final(self).stream() == old(self).stream().skip(amt as int),
    {
        self.i = self.i + amt;
        proof {
            assert(self.unread() =~= old(self).unread().skip(amt as int));
            assert(self.stream() =~= old(self).stream().skip(amt as int));
        }
    }

    /// One step of byte-at-a-time production: hand out the next buffered
    /// byte, refilling from the source when the buffer is spent. Both end of
    /// stream and an underlying failure surface as `None`; a failure is
    /// parked in the stored error for `take_last_error` to report, and a
    /// failure already stored is never overwritten.
    pub fn next(&mut self) -> (r: Option<u8>)
        requires
            old(self).wf(),
        ensures
            final(self).wf(),
            old(self).stored_err() is Some
                ==> final(self).stored_err() == old(self).stored_err(),
            old(self).unread().len() > 0 ==> {
                &&& r is Some
                &&& final(self).unread() == old(self).unread().skip(1)
                &&& final(self).source_view() == old(self).source_view()
            },
            old(self).source_view().infallible() ==> {
                &&& final(self).source_view().infallible()
                &&& final(self).stored_err() == old(self).stored_err()
                &&& (r is Some <==> old(self).stream().len() > 0)
            },
            (old(self).unread().len() == 0 && old(self).source_view().fails_next()) ==> {
                &&& r is None
                &&& final(self).stored_err() == (if old(self).stored_err() is Some {
                    old(self).stored_err()
                } else {
                    Some(old(self).source_view().next_err())
                })
            },
            match r {
                Some(b) => {
                    &&& old(self).stream().len() > 0
                    &&& b == old(self).stream()[0]
                    &&& final(self).stream() == old(self).stream().skip(1)
                    &&& final(self).stored_err() == old(self).stored_err()
                },
                None => {
                    &&& final(self).stream() == old(self).stream()
                    &&& final(self).unread().len() == 0
                    &&& {
                        ||| (old(self).stream().len() == 0
                            && final(self).stored_err() == old(self).stored_err())
                        ||| final(self).stored_err() is Some
                    }
                },
            },
    {
        if self.i < self.len {
            let b = self.buffer[self.i];
            self.i = self.i + 1;
            proof {
                assert(self.unread() =~= old(self).unread().skip(1));
                assert(self.stream() =~= old(self).stream().skip(1));
            }
            Some(b)
        } else {
            proof {
                assert(old(self).stream() =~= old(self).source.remaining());
            }
            match self.source.read(&mut self.buffer) {
                Err(e) => {
                    if self.err.is_none() {
                        self.err = Some(e);
                    }
                    proof {
                        assert(self.stream() =~= old(self).stream());
                    }
                    None
                },
                Ok(n) => {
                    if n == 0 {
                        proof {
                            assert(self.stream() =~= old(self).stream());
                        }
                        None
                    } else {
                        self.len = n;
                        self.i = 1;
                        let b = self.buffer[0];
                        proof {
                            let rem = old(self).source.remaining();
                            assert(self.stream() =~= rem.skip(1));
                        }
                        Some(b)
                    }
                },
            }
        }
    }

    /// Fill `buf` from the front: buffered unread bytes first, and once the
    /// buffer is spent, one direct read from the source. The count returned
    /// is exact: `Ok(0)` on a non-empty `buf` means the stream is exhausted,
    /// and a partial count only reflects a partial read by the source.
    pub fn read(&mut self, buf: &mut Vec<u8>) -> (r: Result<usize, S::Err>)
        requires
            old(self).wf(),
        ensures
            final(self).wf(),
            final(buf)@.len() == old(buf)@.len(),
            final(self).stored_err() == old(self).stored_err(),
            old(self).source_view().infallible()
                ==> r is Ok && final(self).source_view().infallible(),
            (old(self).unread().len() == 0 && old(self).source_view().fails_next())
                ==> (r matches Err(e) && e == old(self).source_view().next_err()),
            match r {
                Ok(n) => {
                    &&& n <= old(buf)@.len()
                    &&& n <= old(self).stream().len()
                    &&& final(buf)@ == old(self).stream().take(n as int)
                        + old(buf)@.skip(n as int)
                    &&& final(self).stream() == old(self).stream().skip(n as int)
                    &&& (n == 0 ==> old(self).stream().len() == 0 || old(buf)@.len() == 0)
                    &&& (old(self).unread().len() > 0 ==> {
                        &&& n == vstd::math::min(old(buf)@.len() as int,
                            old(self).unread().len() as int)
                        &&& final(self).unread() == old(self).unread().skip(n as int)
                        &&& final(self).source_view() == old(self).source_view()
                    })
                    &&& (old(self).unread().len() == 0 ==> final(self).unread().len() == 0)
                },
                Err(_) => {
                    &&& final(self).stream() == old(self).stream()
                    &&& old(self).unread().len() == 0
                    &&& final(self).unread().len() == 0
                },
            },
    {
        if self.i < self.len {
            let avail: usize = self.len - self.i;
            let n: usize = if buf.len() < avail {
                buf.len()
            } else {
                avail
            };
            let ghost buf0 = buf@;
            let mut k: usize = 0;
            while k < n
                invariant
                    k <= n,
                    n <= buf0.len(),
                    self.wf(),
                    self.i + n <= self.len,
                    buf@.len() == buf0.len(),
                    forall|j: int| 0 <= j < k ==> buf@[j] == self.buffer@[self.i + j],
                    forall|j: int| k <= j < buf0.len() ==> buf@[j] == buf0[j],
                decreases n - k,
            {
                buf[k] = self.buffer[self.i + k];
                k = k + 1;
            }
            self.i = self.i + n;
            proof {
                assert(buf@ =~= old(self).stream().take(n as int) + buf0.skip(n as int));
                assert(self.unread() =~= old(self).unread().skip(n as int));
                assert(self.stream() =~= old(self).stream().skip(n as int));
            }
            Ok(n)
        } else {
            proof {
                assert(old(self).stream() =~= old(self).source.remaining());
            }
            let r = self.source.read(buf);
            proof {
                assert(self.unread() =~= Seq::<u8>::empty());
                if let Ok(n) = r {
                    assert(buf@ =~= old(self).stream().take(n as int)
                        + old(buf)@.skip(n as int));
                    assert(self.stream() =~= old(self).stream().skip(n as int));
                } else {
                    assert(self.stream() =~= old(self).stream());
                }
            }
            r
        }
    }

    /// Hand back a view of the unread buffered bytes, refilling from the
    /// source first when none are buffered. While unread bytes remain,
    /// repeated calls return the same view and perform no read. A failing
    /// refill is returned directly to the caller; nothing is stored.
    pub fn fill_buf(&mut self) -> (r: Result<&[u8], S::Err>)
        requires
            old(self).wf(),
        ensures
            final(self).wf(),
            final(self).stored_err() == old(self).stored_err(),
            old(self).source_view().infallible()
                ==> r is Ok && final(self).source_view().infallible(),
            (old(self).unread().len() == 0 && old(self).source_view().fails_next())
                ==> (r matches Err(e) && e == old(self).source_view().next_err()),
            match r {
                Ok(v) => {
                    &&& v@ == final(self).unread()
                    &&& final(self).stream() == old(self).stream()
                    &&& v@ == old(self).stream().take(v@.len() as int)
                    &&& (v@.len() == 0) == (old(self).stream().len() == 0)
                    &&& (old(self).unread().len() > 0 ==> *final(self) == *old(self))
                },
                Err(_) => {
                    &&& final(self).stream() == old(self).stream()
                    &&& old(self).unread().len() == 0
                    &&& final(self).unread().len() == 0
                },
            },
    {
        if self.i >= self.len {
            proof {
                assert(old(self).stream() =~= old(self).source.remaining());
            }
            match self.source.read(&mut self.buffer) {
                Err(e) => {
                    proof {
                        assert(self.stream() =~= old(self).stream());
                    }
                    return Err(e);
                },
                Ok(n) => {
                    self.len = n;
                    self.i = 0;
                    proof {
                        assert(self.unread() =~= old(self).source.remaining().take(n as int));
                        assert(self.stream() =~= old(self).stream());
                    }
                },
            }
        }
        proof {
            assert(self.unread() =~= self.stream().take(self.unread().len() as int));
        }
        let v = vstd::slice::slice_subrange(self.buffer.as_slice(), self.i, self.len);
        Ok(v)
    }

    /// Drive byte-at-a-time production to its end and collect what it yields.
    /// What comes back is a prefix of the logical stream, in order, with
    /// nothing lost or duplicated; when no failure is stored afterwards it is
    /// the whole stream and the stream is exhausted; over an infallible
    /// source that is owed; and a source that fails at once stores its error
    /// and yields nothing.
    pub fn drain(&mut self) -> (v: Vec<u8>)
        requires
            old(self).wf(),
        ensures
            final(self).wf(),
            v@.len() <= old(self).stream().len(),
            v@ == old(self).stream().take(v@.len() as int),
            final(self).stream() == old(self).stream().skip(v@.len() as int),
            final(self).stored_err() is None ==> {
                &&& old(self).stored_err() is None
                &&& v@ == old(self).stream()
                &&& final(self).stream().len() == 0
            },
            old(self).stored_err() is Some
                ==> final(self).stored_err() == old(self).stored_err(),
            old(self).source_view().infallible() ==> {
                &&& final(self).source_view().infallible()
                &&& final(self).stored_err() == old(self).stored_err()
                &&& v@ == old(self).stream()
                &&& final(self).stream().len() == 0
            },
            (old(self).unread().len() == 0 && old(self).source_view().fails_next()
                && old(self).stored_err() is None) ==> {
                &&& v@.len() == 0
                &&& final(self).stored_err() == Some(old(self).source_view().next_err())
            },
    {
        let mut v: Vec<u8> = Vec::new();
        let mut finished = false;
        while !finished
            invariant
                self.wf(),
                v@.len() <= old(self).stream().len(),
                v@ == old(self).stream().take(v@.len() as int),
                self.stream() == old(self).stream().skip(v@.len() as int),
                self.stored_err() is None ==> old(self).stored_err() is None,
                old(self).stored_err() is Some
                    ==> self.stored_err() == old(self).stored_err(),
                old(self).source_view().infallible() ==> {
                    &&& self.source_view().infallible()
                    &&& self.stored_err() == old(self).stored_err()
                    &&& (finished ==> self.stream().len() == 0)
                },
                (old(self).unread().len() == 0 && old(self).source_view().fails_next()
                    && old(self).stored_err() is None) ==> {
                    &&& v@.len() == 0
                    &&& (!finished ==> self.stored_err() is None
                        && self.unread().len() == 0
                        && self.source_view() == old(self).source_view())
                    &&& (finished ==> self.stored_err()
                        == Some(old(self).source_view().next_err()))
                },
                finished ==> (self.stream().len() == 0 || self.stored_err() is Some),
            decreases self.stream().len() + (if finished { 0int } else { 1int }),
        {
            let ghost taken = v@.len() as int;
            match self.next() {
                Some(b) => {
                    v.push(b);
                    proof {
                        assert(v@ =~= old(self).stream().take(taken + 1));
                        assert(self.stream()
                            =~= old(self).stream().skip(taken + 1));
                    }
                },
                None => {
                    finished = true;
                },
            }
        }
        proof {
            if v@.len() == old(self).stream().len() {
                assert(v@ =~= old(self).stream());
            }
        }
        v
    }
}

} // verus!
