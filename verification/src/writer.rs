//! The cursor-based encoder: a writer over a fixed-capacity byte buffer.

use vstd::prelude::*;

use crate::error::Error;

verus! {

/// Writes bytes at a cursor into a buffer of fixed capacity.
///
/// A write that would pass the end of the buffer fails with `Overflow` and
/// leaves the written prefix unchanged. [`Encoder::finish`] extracts exactly
/// the bytes written so far.
pub struct Encoder {
    bytes: Vec<u8>,
    position: usize,
}

impl Encoder {
    #[verifier::type_invariant]
    spec fn inv(self) -> bool {
        self.position <= self.bytes@.len()
    }

    /// The bytes written so far, in order.
    pub closed spec fn written(self) -> Seq<u8> {
        self.bytes@.take(self.position as int)
    }

    /// The fixed number of bytes this encoder can hold.
    pub closed spec fn capacity(self) -> int {
        self.bytes@.len() as int
    }

    /// A fresh encoder over a zeroed buffer of the given capacity.
    pub fn new(capacity: usize) -> (r: Encoder)
        ensures
            r.written() == Seq::<u8>::empty(),
            r.capacity() == capacity as int,
    {
        let mut bytes: Vec<u8> = Vec::new();
        while bytes.len() < capacity
            invariant
                bytes@.len() <= capacity,
            decreases capacity - bytes.len(),
        {
            bytes.push(0);
        }
        let r = Encoder { bytes, position: 0 };
        proof {
            assert(r.written() =~= Seq::<u8>::empty());
        }
        r
    }

    /// Append one byte at the cursor; `Overflow` when the buffer is full.
    pub fn byte(&mut self, b: u8) -> (r: Result<(), Error>)
        ensures
            final(self).capacity() == old(self).capacity(),
            final(self).written().len() <= final(self).capacity(),
            old(self).written().len() < old(self).capacity() ==> r == Ok::<(), Error>(())
                && final(self).written() == old(self).written().push(b),
            old(self).written().len() >= old(self).capacity() ==> r == Err::<(), Error>(
                Error::Overflow,
            ) && final(self).written() == old(self).written(),
    {
        proof {
            use_type_invariant(&*self);
        }
        if self.position < self.bytes.len() {
            self.bytes[self.position] = b;
            self.position = self.position + 1;
            proof {
                assert(self.written() =~= old(self).written().push(b));
            }
            Ok(())
        } else {
            Err(Error::Overflow)
        }
    }

    /// Append a run of bytes at the cursor; `Overflow` when they do not all
    /// fit, in which case nothing is written.
    pub fn bytes(&mut self, data: &[u8]) -> (r: Result<(), Error>)
        ensures
            final(self).capacity() == old(self).capacity(),
            final(self).written().len() <= final(self).capacity(),
            old(self).written().len() + data@.len() <= old(self).capacity() ==> r == Ok::<
                (),
                Error,
            >(()) && final(self).written() == old(self).written() + data@,
            old(self).written().len() + data@.len() > old(self).capacity() ==> r == Err::<
                (),
                Error,
            >(Error::Overflow) && final(self).written() == old(self).written(),
    {
        proof {
            use_type_invariant(&*self);
        }
        if data.len() <= self.bytes.len() - self.position {
            let ghost cap0 = self.capacity();
            let ghost written0 = self.written();
            let mut i: usize = 0;
            proof {
                assert(self.written() =~= written0 + data@.take(0));
            }
            while i < data.len()
                invariant
                    i <= data@.len(),
                    self.capacity() == cap0,
                    written0.len() + data@.len() <= cap0,
                    self.written() == written0 + data@.take(i as int),
                decreases data@.len() - i,
            {
                let b = data[i];
                let _ = self.byte(b);
                i = i + 1;
                proof {
                    assert(data@.take(i - 1).push(b) =~= data@.take(i as int));
                    assert(self.written() =~= written0 + data@.take(i as int));
                }
            }
            proof {
                assert(data@.take(data@.len() as int) =~= data@);
            }
            Ok(())
        } else {
            Err(Error::Overflow)
        }
    }

    /// Consume the encoder and return exactly the bytes written.
    pub fn finish(self) -> (r: Vec<u8>)
        ensures
            r@ == self.written(),
    {
        proof {
            use_type_invariant(&self);
        }
        let mut out: Vec<u8> = Vec::new();
        let mut i: usize = 0;
        while i < self.position
            invariant
                i <= self.position,
                self.position <= self.bytes@.len(),
                out@ == self.bytes@.take(i as int),
            decreases self.position - i,
        {
            let b = self.bytes[i];
            out.push(b);
            i = i + 1;
            proof {
                assert(self.bytes@.take(i as int) =~= self.bytes@.take(i - 1).push(b));
            }
        }
        proof {
            assert(out@ =~= self.written());
        }
        out
    }
}

} // verus!
