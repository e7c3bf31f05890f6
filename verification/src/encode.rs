//! The encoding contracts: every DER-representable type states its exact
//! byte encoding and is held to it.

use vstd::prelude::*;

use crate::error::Error;
use crate::header::Header;
use crate::length::spec_length_octets;
use crate::length::Length;
use crate::length::MAX_LENGTH;
use crate::tag::Tag;
use crate::writer::Encoder;

verus! {

/// A type whose values all carry one fixed tag.
pub trait FixedTag {
    /// The fixed tag, at the specification level.
    spec fn spec_tag() -> Tag;

    /// The fixed tag.
    fn tag() -> (t: Tag)
        ensures
            t == Self::spec_tag(),
    ;
}

/// The encoding contract: a value's complete DER byte string, the length
/// computation, and the writer that must produce exactly those bytes.
pub trait Encode {
    /// The complete DER encoding of this value.
    spec fn der_bytes(&self) -> Seq<u8>;

    /// Whether encoding is defined for this value; encoding such a value
    /// into a large enough buffer always succeeds.
    spec fn enc_wf(&self) -> bool;

    /// The length in bytes of this value's complete DER encoding.
    fn encoded_len(&self) -> (r: Result<Length, Error>)
        ensures
            r matches Ok(l) ==> l.0 == self.der_bytes().len(),
            self.enc_wf() ==> r is Ok,
    ;

    /// Write this value's complete DER encoding at the encoder's cursor.
    fn encode(&self, encoder: &mut Encoder) -> (r: Result<(), Error>)
        ensures
            final(encoder).capacity() == old(encoder).capacity(),
            r is Ok ==> final(encoder).written() == old(encoder).written() + self.der_bytes(),
            self.enc_wf() && old(encoder).written().len() + self.der_bytes().len() <= old(
                encoder,
            ).capacity() ==> r is Ok,
    ;

    /// Encode this value and append the bytes to `buf`; the number of bytes
    /// written is checked against the pre-computed length.
    fn encode_to_vec(&self, buf: &mut Vec<u8>) -> (r: Result<Length, Error>)
        ensures
            r matches Ok(l) ==> l.0 == self.der_bytes().len() && final(buf)@ == old(buf)@
                + self.der_bytes(),
            r is Err ==> final(buf)@ == old(buf)@,
            self.enc_wf() ==> r is Ok,
    {
        let len = match self.encoded_len() {
            Ok(l) => l,
            Err(e) => { return Err(e) },
        };
        let mut encoder = Encoder::new(len.0 as usize);
        match self.encode(&mut encoder) {
            Ok(()) => {},
            Err(e) => { return Err(e) },
        }
        proof {
            assert(Seq::<u8>::empty() + self.der_bytes() =~= self.der_bytes());
        }
        let written = match finish_expected(len.0 as usize, encoder) {
            Ok(v) => v,
            Err(e) => { return Err(e) },
        };
        buf.extend_from_slice(written.as_slice());
        Ok(len)
    }

    /// Serialize this value as a fresh byte vector.
    fn to_vec(&self) -> (r: Result<Vec<u8>, Error>)
        ensures
            r matches Ok(v) ==> v@ == self.der_bytes(),
            self.enc_wf() ==> r is Ok,
    {
        let mut buf: Vec<u8> = Vec::new();
        match self.encode_to_vec(&mut buf) {
            Ok(_) => {
                proof {
                    assert(buf@ =~= self.der_bytes());
                }
                Ok(buf)
            },
            Err(e) => Err(e),
        }
    }
}

/// Extract the bytes an encoder wrote, after checking their number against
/// the length that was promised up front: on a mismatch the result is the
/// `Incomplete` error naming both counts, never truncated or padded output.
pub fn finish_expected(expected_len: usize, encoder: Encoder) -> (r: Result<Vec<u8>, Error>)
    requires
        expected_len <= MAX_LENGTH,
        encoder.capacity() <= MAX_LENGTH as int,
    ensures
        encoder.written().len() == expected_len ==> (r matches Ok(v) && v@ == encoder.written()),
        encoder.written().len() != expected_len ==> r == Err::<Vec<u8>, Error>(
            Error::Incomplete {
                expected_len: Length(expected_len as u32),
                actual_len: Length(encoder.written().len() as u32),
            },
        ),
{
    let out = encoder.finish();
    if out.len() == expected_len {
        Ok(out)
    } else {
        Err(
            Error::Incomplete {
                expected_len: Length(expected_len as u32),
                actual_len: Length(out.len() as u32),
            },
        )
    }
}

/// The value-level half of encoding: the content octets without the TLV
/// framing. The complete [`Encode`] contract is derived from this one, so a
/// type's framing and its value bytes can never disagree.
pub trait EncodeValue: FixedTag {
    /// The content octets of this value, without tag and length framing.
    spec fn value_bytes(&self) -> Seq<u8>;

    /// Whether encoding is defined for this value.
    spec fn value_wf(&self) -> bool;

    /// The length in bytes of the content octets alone.
    fn value_len(&self) -> (r: Result<Length, Error>)
        ensures
            r matches Ok(l) ==> l.0 == self.value_bytes().len(),
            self.value_wf() ==> r is Ok,
    ;

    /// Write the content octets alone at the encoder's cursor.
    fn encode_value(&self, encoder: &mut Encoder) -> (r: Result<(), Error>)
        ensures
            final(encoder).capacity() == old(encoder).capacity(),
            r is Ok ==> final(encoder).written() == old(encoder).written() + self.value_bytes(),
            self.value_wf() && old(encoder).written().len() + self.value_bytes().len() <= old(
                encoder,
            ).capacity() ==> r is Ok,
    ;

    /// The TLV header this value encodes under: its fixed tag and the length
    /// of its content octets.
    fn header(&self) -> (r: Result<Header, Error>)
        ensures
            r matches Ok(h) ==> h.tag == Self::spec_tag() && h.length.0
                == self.value_bytes().len(),
            self.value_wf() ==> r is Ok,
    {
        let len = match self.value_len() {
            Ok(l) => l,
            Err(e) => { return Err(e) },
        };
        Ok(Header { tag: Self::tag(), length: len })
    }
}

/// Framing written exactly once: any type that can encode its value octets
/// under a fixed tag encodes as header followed by value.
impl<T: EncodeValue> Encode for T {
    open spec fn der_bytes(&self) -> Seq<u8> {
        seq![T::spec_tag().spec_octet()] + spec_length_octets(self.value_bytes().len() as u32)
            + self.value_bytes()
    }

    open spec fn enc_wf(&self) -> bool {
        self.value_wf() && 1 + spec_length_octets(self.value_bytes().len() as u32).len()
            + self.value_bytes().len() <= MAX_LENGTH
    }

    fn encoded_len(&self) -> (r: Result<Length, Error>) {
        let len = match self.value_len() {
            Ok(l) => l,
            Err(e) => { return Err(e) },
        };
        len.for_tlv()
    }

    fn encode(&self, encoder: &mut Encoder) -> (r: Result<(), Error>) {
        let ghost w0 = encoder.written();
        let h = match self.header() {
            Ok(h) => h,
            Err(e) => { return Err(e) },
        };
        match h.encode(encoder) {
            Ok(()) => {},
            Err(e) => { return Err(e) },
        }
        let r = self.encode_value(encoder);
        proof {
            if r is Ok {
                assert(encoder.written() =~= w0 + self.der_bytes());
            }
        }
        r
    }
}

} // verus!
