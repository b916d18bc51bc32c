//! In-memory byte sources and sinks: the cursors a codec reads from and
//! writes to. Transport I/O hands a received buffer to a `ByteSource` and
//! takes the bytes of a `ByteSink` back to the wire.

use vstd::prelude::*;

use crate::errors::{Error, IoErrorKind};

verus! {

/// A cursor over a buffer of received bytes; decoding consumes from the front.
pub struct ByteSource {
    data: Vec<u8>,
    pos: usize,
}

impl ByteSource {
    /// The bytes not yet consumed.
    pub closed spec fn remaining(&self) -> Seq<u8> {
        if self.pos <= self.data@.len() {
            self.data@.skip(self.pos as int)
        } else {
            Seq::empty()
        }
    }

    /// Wraps a buffer of bytes as a source positioned at its start.
    pub fn new(data: Vec<u8>) -> (source: ByteSource)
        ensures
            source.remaining() == data@,
    {
        let source = ByteSource { data, pos: 0 };
        proof {
            assert(source.remaining() =~= source.data@);
        }
        source
    }

    /// The number of bytes not yet consumed.
    pub fn remaining_len(&self) -> (n: usize)
        ensures
            n == self.remaining().len(),
    {
        if self.pos <= self.data.len() {
            self.data.len() - self.pos
        } else {
            0
        }
    }

    /// Consumes and returns the next byte, or an end-of-stream error when
    /// none is left.
    pub fn read_byte(&mut self) -> (r: Result<u8, Error>)
        ensures
            old(self).remaining().len() > 0 ==> (r matches Ok(b) && b == old(self).remaining()[0]
                && final(self).remaining() == old(self).remaining().skip(1)),
            old(self).remaining().len() == 0 ==> (r matches Err(e)
                && e == Error::Io(IoErrorKind::UnexpectedEof)
                && final(self).remaining() == old(self).remaining()),
    {
        if self.pos < self.data.len() {
            let b = self.data[self.pos];
            self.pos = self.pos + 1;
            proof {
                assert(self.remaining() =~= old(self).remaining().skip(1));
            }
            Ok(b)
        } else {
            Err(Error::Io(IoErrorKind::UnexpectedEof))
        }
    }
}

impl ByteSource {
    /// Consumes and returns every byte not yet consumed, in order.
    pub fn read_rest(&mut self) -> (bytes: Vec<u8>)
        ensures
            bytes@ == old(self).remaining(),
            final(self).remaining() == Seq::<u8>::empty(),
    {
        let mut out: Vec<u8> = Vec::new();
        proof {
            assert(out@ =~= old(self).remaining().take(0));
            assert(self.remaining() =~= old(self).remaining().skip(0));
        }
        while self.remaining_len() > 0
            invariant
                out@.len() <= old(self).remaining().len(),
                out@ == old(self).remaining().take(out@.len() as int),
                self.remaining() == old(self).remaining().skip(out@.len() as int),
            decreases self.remaining().len(),
        {
            let ghost k = out@.len() as int;
            match self.read_byte() {
                Ok(b) => {
                    out.push(b);
                    proof {
                        assert(old(self).remaining().skip(k)[0] == old(self).remaining()[k]);
                        assert(out@ =~= old(self).remaining().take(k + 1));
                        assert(self.remaining() =~= old(self).remaining().skip(k + 1));
                    }
                },
                Err(_) => {
                    proof {
                        assert(false);
                    }
                },
            }
        }
        proof {
            assert(out@ =~= old(self).remaining());
            assert(self.remaining() =~= Seq::<u8>::empty());
        }
        out
    }
}

/// A growable buffer of bytes to encode into; its view is the bytes written
/// so far, in order.
pub struct ByteSink {
    data: Vec<u8>,
}

impl View for ByteSink {
    type V = Seq<u8>;

    closed spec fn view(&self) -> Seq<u8> {
        self.data@
    }
}

impl ByteSink {
    /// An empty sink.
    pub fn new() -> (sink: ByteSink)
        ensures
            sink@ == Seq::<u8>::empty(),
    {
        let sink = ByteSink { data: Vec::new() };
        proof {
            assert(sink@ =~= Seq::<u8>::empty());
        }
        sink
    }

    /// Appends one byte.
    pub fn push(&mut self, b: u8)
        ensures
            final(self)@ == old(self)@.push(b),
    {
        self.data.push(b);
    }

    /// Appends every byte of `bytes`, in order.
    pub fn append(&mut self, bytes: &Vec<u8>)
        ensures
            final(self)@ == old(self)@ + bytes@,
    {
        let mut i: usize = 0;
        while i < bytes.len()
            invariant
                i <= bytes@.len(),
                self@ == old(self)@ + bytes@.take(i as int),
            decreases bytes@.len() - i,
        {
            self.data.push(bytes[i]);
            i = i + 1;
            proof {
                assert(old(self)@ + bytes@.take(i as int)
                    =~= (old(self)@ + bytes@.take(i - 1)).push(bytes@[i - 1]));
            }
        }
        proof {
            assert(bytes@.take(bytes@.len() as int) =~= bytes@);
        }
    }

    /// The number of bytes written so far.
    pub fn len(&self) -> (n: usize)
        ensures
            n == self@.len(),
    {
        self.data.len()
    }

    /// Takes the written bytes out of the sink.
    pub fn into_vec(self) -> (bytes: Vec<u8>)
        ensures
            bytes@ == self@,
    {
        self.data
    }
}

} // verus!
