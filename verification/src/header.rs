//! TLV headers: the tag and length prefix of every DER-encoded value.

use vstd::prelude::*;

use crate::encode::Encode;
use crate::error::Error;
use crate::length::spec_length_octets;
use crate::length::Length;
use crate::length::MAX_LENGTH;
use crate::tag::Tag;
use crate::writer::Encoder;

verus! {

/// A TLV prefix: the tag of the encoded value and the byte count of the
/// content octets that follow.
#[derive(Copy, Clone, Debug, PartialEq, Eq, Structural)]
pub struct Header {
    /// Tag representing the type of the encoded value.
    pub tag: Tag,

    /// Length of the encoded value.
    pub length: Length,
}

impl Header {
    /// Create a header from a tag and a byte count; counts above
    /// [`MAX_LENGTH`] do not fit a [`Length`] and are `Overflow`.
    pub fn new(tag: Tag, length: usize) -> (r: Result<Header, Error>)
        ensures
            length <= MAX_LENGTH ==> r == Ok::<Header, Error>(
                Header { tag, length: Length(length as u32) },
            ),
            length > MAX_LENGTH ==> r == Err::<Header, Error>(Error::Overflow),
    {
        let length = match Length::try_from_usize(length) {
            Ok(l) => l,
            Err(e) => { return Err(e) },
        };
        Ok(Header { tag, length })
    }
}

impl Encode for Header {
    /// A header encodes as the tag octet followed by the canonical length
    /// octets, in that fixed order.
    open spec fn der_bytes(&self) -> Seq<u8> {
        seq![self.tag.spec_octet()] + spec_length_octets(self.length.0)
    }

    open spec fn enc_wf(&self) -> bool {
        true
    }

    fn encoded_len(&self) -> (r: Result<Length, Error>) {
        let l = match self.length.encoded_len() {
            Ok(l) => l,
            Err(e) => { return Err(e) },
        };
        Length(1).add(l)
    }

    fn encode(&self, encoder: &mut Encoder) -> (r: Result<(), Error>) {
        let ghost w0 = encoder.written();
        match self.tag.encode(encoder) {
            Ok(()) => {},
            Err(e) => { return Err(e) },
        }
        let r = self.length.encode(encoder);
        proof {
            if r is Ok {
                assert(encoder.written() =~= w0 + self.der_bytes());
            }
        }
        r
    }
}

} // verus!

use crate::decode::Decode;
use crate::length::spec_byte_underrun;
use crate::length::spec_length_decode;
use crate::reader::Decoder;

verus! {

impl Decode for Header {
    /// A header parses as a tag octet followed by a length field; a
    /// structurally non-canonical length is reported as `Length { tag }`, so
    /// the caller learns which TLV field was malformed.
    open spec fn spec_decode(data: Seq<u8>) -> Result<(Header, int), Error> {
        if data.len() < 1 {
            Err(spec_byte_underrun())
        } else {
            match Tag::spec_from_octet(data[0]) {
                Err(e) => Err(e),
                Ok(tag) => match spec_length_decode(data.skip(1)) {
                    Ok((l, n)) => Ok((Header { tag, length: l }, 1 + n)),
                    Err(e) => Err(
                        if e == Error::Overlength {
                            Error::Length { tag }
                        } else {
                            e
                        },
                    ),
                },
            }
        }
    }

    fn decode(decoder: &mut Decoder) -> (r: Result<Header, Error>) {
        let ghost data0 = decoder.data();
        let ghost pos0 = decoder.pos();
        let ghost rest0 = decoder.rest();
        let tag = match Tag::decode(decoder) {
            Ok(t) => t,
            Err(e) => { return Err(e) },
        };
        proof {
            broadcast use vstd::seq_lib::group_seq_properties;

            assert(decoder.rest() =~= rest0.skip(1));
        }
        match Length::decode(decoder) {
            Ok(length) => Ok(Header { tag, length }),
            Err(e) => Err(
                match e {
                    Error::Overlength => Error::Length { tag },
                    _ => e,
                },
            ),
        }
    }
}

} // verus!
