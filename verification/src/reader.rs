//! The cursor-based decoder: a reader over an immutable byte slice.

use vstd::prelude::*;

use crate::error::Error;
use crate::length::Length;
use crate::length::spec_byte_underrun;
use crate::length::MAX_LENGTH;

verus! {

/// Reads bytes at a cursor from a borrowed slice.
///
/// Every read either advances the cursor by exactly the bytes consumed or
/// fails with `Incomplete` and leaves the cursor where it was. The slice is
/// at most [`MAX_LENGTH`] bytes long, the widest value a DER length field
/// can describe in this implementation.
pub struct Decoder<'a> {
    bytes: &'a [u8],
    position: usize,
}

impl<'a> Decoder<'a> {
    #[verifier::type_invariant]
    spec fn inv(self) -> bool {
        self.position <= self.bytes@.len() && self.bytes@.len() <= MAX_LENGTH
    }

    /// The whole input.
    pub closed spec fn data(self) -> Seq<u8> {
        self.bytes@
    }

    /// How many bytes have been consumed.
    pub closed spec fn pos(self) -> int {
        self.position as int
    }

    /// The bytes not yet consumed.
    pub open spec fn rest(self) -> Seq<u8> {
        self.data().skip(self.pos())
    }

    /// A fresh decoder positioned at the start of `bytes`.
    pub fn new(bytes: &'a [u8]) -> (r: Decoder<'a>)
        requires
            bytes@.len() <= MAX_LENGTH,
        ensures
            r.data() == bytes@,
            r.pos() == 0,
    {
        Decoder { bytes, position: 0 }
    }

    /// Read a single byte.
    pub fn byte(&mut self) -> (r: Result<u8, Error>)
        ensures
            final(self).data() == old(self).data(),
            0 <= old(self).pos() <= old(self).data().len(),
            0 <= final(self).pos() <= final(self).data().len(),
            old(self).rest().len() > 0 ==> r == Ok::<u8, Error>(old(self).rest()[0]) && final(self).pos()
                == old(self).pos() + 1,
            old(self).rest().len() == 0 ==> r == Err::<u8, Error>(spec_byte_underrun())
                && final(self).pos() == old(self).pos(),
    {
        proof {
            use_type_invariant(&*self);
        }
        if self.position < self.bytes.len() {
            let b = *vstd::slice::slice_index_get(self.bytes, self.position);
            self.position = self.position + 1;
            Ok(b)
        } else {
            Err(Error::Incomplete { expected_len: Length(1), actual_len: Length(0) })
        }
    }

    /// Read exactly `n` bytes as an owned vector; `Incomplete` names the
    /// requested and the available count when fewer remain.
    pub fn read_bytes(&mut self, n: usize) -> (r: Result<Vec<u8>, Error>)
        requires
            n <= MAX_LENGTH,
        ensures
            final(self).data() == old(self).data(),
            0 <= old(self).pos() <= old(self).data().len(),
            0 <= final(self).pos() <= final(self).data().len(),
            n <= old(self).rest().len() ==> (r matches Ok(v) && v@ == old(self).rest().take(
                n as int,
            ) && final(self).pos() == old(self).pos() + n),
            n > old(self).rest().len() ==> r == Err::<Vec<u8>, Error>(
                Error::Incomplete {
                    expected_len: Length(n as u32),
                    actual_len: Length(old(self).rest().len() as u32),
                },
            ) && final(self).pos() == old(self).pos(),
    {
        proof {
            use_type_invariant(&*self);
        }
        if n <= self.bytes.len() - self.position {
            let mut out: Vec<u8> = Vec::new();
            let mut i: usize = 0;
            while i < n
                invariant
                    i <= n,
                    *self == *old(self),
                    self.bytes@.len() <= usize::MAX as int,
                    self.position + n <= self.bytes@.len(),
                    out@ == self.bytes@.subrange(self.position as int, self.position + i),
                decreases n - i,
            {
                let b = *vstd::slice::slice_index_get(self.bytes, self.position + i);
                out.push(b);
                i = i + 1;
                proof {
                    assert(self.bytes@.subrange(self.position as int, self.position + i)
                        =~= self.bytes@.subrange(self.position as int, self.position + i - 1).push(
                        b,
                    ));
                }
            }
            let pos = self.position;
            self.position = pos + n;
            proof {
                assert(out@ =~= old(self).rest().take(n as int));
            }
            Ok(out)
        } else {
            Err(
                Error::Incomplete {
                    expected_len: Length(n as u32),
                    actual_len: Length((self.bytes.len() - self.position) as u32),
                },
            )
        }
    }

    /// How many bytes remain.
    pub fn remaining_len(&self) -> (r: usize)
        ensures
            0 <= self.pos() <= self.data().len(),
            r == self.rest().len(),
    {
        proof {
            use_type_invariant(&*self);
        }
        self.bytes.len() - self.position
    }

    /// Whether every byte of the input has been consumed.
    pub fn is_finished(&self) -> (r: bool)
        ensures
            0 <= self.pos() <= self.data().len(),
            r == (self.rest().len() == 0),
    {
        proof {
            use_type_invariant(&*self);
        }
        self.position == self.bytes.len()
    }
}

} // verus!
