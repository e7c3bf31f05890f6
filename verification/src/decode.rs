//! The decoding contracts: each type states the unique parse of a byte
//! string, and its reader is held to it.

use vstd::prelude::*;

use crate::encode::FixedTag;
use crate::error::Error;
use crate::header::Header;
use crate::length::Length;
use crate::length::MAX_LENGTH;
use crate::reader::Decoder;

verus! {

/// The decoding contract: what parsing the front of a byte string yields —
/// the value with the exact count of bytes it occupied, or the exact error.
pub trait Decode: Sized {
    /// The unique parse of the front of `data`.
    spec fn spec_decode(data: Seq<u8>) -> Result<(Self, int), Error>;

    /// Read one value at the decoder's cursor, advancing it by exactly the
    /// bytes the value occupied.
    fn decode(decoder: &mut Decoder) -> (r: Result<Self, Error>)
        ensures
            final(decoder).data() == old(decoder).data(),
            0 <= old(decoder).pos() <= old(decoder).data().len(),
            0 <= final(decoder).pos() <= final(decoder).data().len(),
            match Self::spec_decode(old(decoder).rest()) {
                Ok((v, n)) => r matches Ok(rv) && rv == v && final(decoder).pos() == old(
                    decoder,
                ).pos() + n,
                Err(e) => r == Err::<Self, Error>(e),
            },
    ;

    /// Decode one value that must occupy `bytes` exactly: leftover bytes are
    /// the `TrailingData` error, naming the decoded and remaining counts.
    fn from_der(bytes: &[u8]) -> (r: Result<Self, Error>)
        ensures
            bytes@.len() > MAX_LENGTH ==> r == Err::<Self, Error>(Error::Overflow),
            bytes@.len() <= MAX_LENGTH ==> match Self::spec_decode(bytes@) {
                Ok((v, n)) => if n == bytes@.len() {
                    r matches Ok(rv) && rv == v
                } else {
                    r == Err::<Self, Error>(
                        Error::TrailingData {
                            decoded: Length(n as u32),
                            remaining: Length((bytes@.len() - n) as u32),
                        },
                    )
                },
                Err(e) => r == Err::<Self, Error>(e),
            },
    {
        if bytes.len() > MAX_LENGTH as usize {
            return Err(Error::Overflow);
        }
        let mut decoder = Decoder::new(bytes);
        proof {
            assert(decoder.rest() =~= bytes@);
        }
        let v = match Self::decode(&mut decoder) {
            Ok(v) => v,
            Err(e) => { return Err(e) },
        };
        let rem = decoder.remaining_len();
        if rem == 0 {
            Ok(v)
        } else {
            Err(
                Error::TrailingData {
                    decoded: Length((bytes.len() - rem) as u32),
                    remaining: Length(rem as u32),
                },
            )
        }
    }
}

/// The value-level half of decoding: the unique parse of the content octets
/// of one TLV record whose header has already been read.
pub trait DecodeValue: Sized + FixedTag {
    /// The unique parse of exactly the content octets of one record.
    spec fn spec_decode_value(content: Seq<u8>) -> Result<Self, Error>;

    /// Read the value from exactly `header.length` content bytes at the
    /// cursor; fewer available bytes are the `Incomplete` error.
    fn decode_value(decoder: &mut Decoder, header: Header) -> (r: Result<Self, Error>)
        ensures
            final(decoder).data() == old(decoder).data(),
            0 <= old(decoder).pos() <= old(decoder).data().len(),
            0 <= final(decoder).pos() <= final(decoder).data().len(),
            header.length.0 <= old(decoder).rest().len() ==> match Self::spec_decode_value(
                old(decoder).rest().take(header.length.0 as int),
            ) {
                Ok(v) => r matches Ok(rv) && rv == v && final(decoder).pos() == old(decoder).pos()
                    + header.length.0,
                Err(e) => r == Err::<Self, Error>(e),
            },
            header.length.0 > old(decoder).rest().len() ==> r == Err::<Self, Error>(
                Error::Incomplete {
                    expected_len: Length(header.length.0),
                    actual_len: Length(old(decoder).rest().len() as u32),
                },
            ),
    ;
}

/// TLV reading written exactly once: a value with a fixed tag decodes as a
/// header carrying that tag, then exactly `header.length` content octets.
impl<T: DecodeValue> Decode for T {
    open spec fn spec_decode(data: Seq<u8>) -> Result<(T, int), Error> {
        match Header::spec_decode(data) {
            Err(e) => Err(e),
            Ok((h, n)) => if h.tag != T::spec_tag() {
                Err(Error::UnexpectedTag { expected: T::spec_tag(), actual: h.tag })
            } else if h.length.0 > data.len() - n {
                Err(
                    Error::Incomplete {
                        expected_len: Length(h.length.0),
                        actual_len: Length((data.len() - n) as u32),
                    },
                )
            } else {
                match T::spec_decode_value(data.subrange(n, n + h.length.0)) {
                    Ok(v) => Ok((v, n + h.length.0)),
                    Err(e) => Err(e),
                }
            },
        }
    }

    fn decode(decoder: &mut Decoder) -> (r: Result<T, Error>) {
        let ghost rest0 = decoder.rest();
        let ghost pos0 = decoder.pos();
        let h = match Header::decode(decoder) {
            Ok(h) => h,
            Err(e) => { return Err(e) },
        };
        let ghost n = decoder.pos() - pos0;
        proof {
            assert(decoder.rest() =~= rest0.skip(n));
        }
        let expected = T::tag();
        if !(h.tag == expected) {
            return Err(Error::UnexpectedTag { expected, actual: h.tag });
        }
        proof {
            if h.length.0 <= rest0.len() - n {
                assert(decoder.rest().take(h.length.0 as int) =~= rest0.subrange(
                    n,
                    n + h.length.0,
                ));
            }
        }
        T::decode_value(decoder, h)
    }
}

} // verus!
