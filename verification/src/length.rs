//! DER length fields: bounded counts with a canonical short/long-form
//! serialization.

use vstd::prelude::*;

use crate::error::Error;

verus! {

/// The largest byte count a [`Length`] can hold.
pub const MAX_LENGTH: u32 = 0xffff_ffff;

/// A DER length: a non-negative byte count of at most [`MAX_LENGTH`].
///
/// Every `Length` value has exactly one canonical DER serialization, given by
/// [`spec_length_octets`].
#[derive(Copy, Clone, Debug, PartialEq, Eq, Structural)]
pub struct Length(pub u32);

/// The canonical DER octets of a length value: one octet below 0x80 (short
/// form), otherwise a count octet `0x80 + n` followed by the minimal `n`
/// big-endian value octets.
pub open spec fn spec_length_octets(v: u32) -> Seq<u8> {
    if v < 0x80 {
        seq![v as u8]
    } else if v < 0x100 {
        seq![0x81u8, v as u8]
    } else if v < 0x10000 {
        seq![0x82u8, (v / 0x100) as u8, (v % 0x100) as u8]
    } else if v < 0x1000000 {
        seq![0x83u8, (v / 0x10000) as u8, ((v / 0x100) % 0x100) as u8, (v % 0x100) as u8]
    } else {
        seq![
            0x84u8,
            (v / 0x1000000) as u8,
            ((v / 0x10000) % 0x100) as u8,
            ((v / 0x100) % 0x100) as u8,
            (v % 0x100) as u8,
        ]
    }
}

/// The error a decoder raises when it needs one more byte than the input
/// holds.
pub open spec fn spec_byte_underrun() -> Error {
    Error::Incomplete { expected_len: Length(1), actual_len: Length(0) }
}

/// What decoding a length field from the front of `data` yields: the length
/// and the number of octets it occupied, or the exact error.
///
/// Only canonical encodings succeed: the indefinite marker 0x80 and every
/// non-minimal long form are `Overlength`; a long form of more than four
/// value octets cannot fit this implementation's width and is `Overflow`.
pub open spec fn spec_length_decode(data: Seq<u8>) -> Result<(Length, int), Error> {
    if data.len() < 1 {
        Err(spec_byte_underrun())
    } else {
        let b0 = data[0];
        if b0 < 0x80 {
            Ok((Length(b0 as u32), 1))
        } else if b0 == 0x80 {
            Err(Error::Overlength)
        } else if b0 == 0x81 {
            if data.len() < 2 {
                Err(spec_byte_underrun())
            } else if data[1] < 0x80 {
                Err(Error::Overlength)
            } else {
                Ok((Length(data[1] as u32), 2))
            }
        } else if b0 == 0x82 {
            if data.len() < 3 {
                Err(spec_byte_underrun())
            } else if data[1] == 0 {
                Err(Error::Overlength)
            } else {
                Ok((Length(((data[1] as int) * 0x100 + (data[2] as int)) as u32), 3))
            }
        } else if b0 == 0x83 {
            if data.len() < 4 {
                Err(spec_byte_underrun())
            } else if data[1] == 0 {
                Err(Error::Overlength)
            } else {
                Ok(
                    (
                        Length(
                            ((data[1] as int) * 0x10000 + (data[2] as int) * 0x100 + (
                            data[3] as int)) as u32,
                        ),
                        4,
                    ),
                )
            }
        } else if b0 == 0x84 {
            if data.len() < 5 {
                Err(spec_byte_underrun())
            } else if data[1] == 0 {
                Err(Error::Overlength)
            } else {
                Ok(
                    (
                        Length(
                            ((data[1] as int) * 0x1000000 + (data[2] as int) * 0x10000 + (
                            data[3] as int) * 0x100 + (data[4] as int)) as u32,
                        ),
                        5,
                    ),
                )
            }
        } else {
            Err(Error::Overflow)
        }
    }
}

impl Length {
    /// Build a length from a byte count.
    pub fn new(value: u32) -> (r: Length)
        ensures
            r == Length(value),
    {
        Length(value)
    }

    /// Fallible conversion from a machine-sized count: counts above
    /// [`MAX_LENGTH`] do not fit and are `Overflow`.
    pub fn try_from_usize(value: usize) -> (r: Result<Length, Error>)
        ensures
            value <= MAX_LENGTH ==> r == Ok::<Length, Error>(Length(value as u32)),
            value > MAX_LENGTH ==> r == Err::<Length, Error>(Error::Overflow),
    {
        if value <= MAX_LENGTH as usize {
            Ok(Length(value as u32))
        } else {
            Err(Error::Overflow)
        }
    }

    /// Checked addition: the sum of two lengths, or `Overflow` when it would
    /// exceed [`MAX_LENGTH`].
    pub fn add(self, other: Length) -> (r: Result<Length, Error>)
        ensures
            self.0 + other.0 <= MAX_LENGTH ==> r == Ok::<Length, Error>(
                Length((self.0 + other.0) as u32),
            ),
            self.0 + other.0 > MAX_LENGTH ==> r == Err::<Length, Error>(Error::Overflow),
    {
        if other.0 <= MAX_LENGTH - self.0 {
            Ok(Length(self.0 + other.0))
        } else {
            Err(Error::Overflow)
        }
    }

    /// How many octets the length field itself occupies when encoded.
    pub fn encoded_len(self) -> (r: Result<Length, Error>)
        ensures
            r == Ok::<Length, Error>(Length(spec_length_octets(self.0).len() as u32)),
    {
        if self.0 < 0x80 {
            Ok(Length(1))
        } else if self.0 < 0x100 {
            Ok(Length(2))
        } else if self.0 < 0x10000 {
            Ok(Length(3))
        } else if self.0 < 0x1000000 {
            Ok(Length(4))
        } else {
            Ok(Length(5))
        }
    }

    /// The total length of a TLV record whose value part has this length:
    /// one tag octet, the length field's own octets, then the value.
    pub fn for_tlv(self) -> (r: Result<Length, Error>)
        ensures
            1 + spec_length_octets(self.0).len() + self.0 <= MAX_LENGTH ==> r == Ok::<
                Length,
                Error,
            >(Length((1 + spec_length_octets(self.0).len() + self.0) as u32)),
            1 + spec_length_octets(self.0).len() + self.0 > MAX_LENGTH ==> r == Err::<
                Length,
                Error,
            >(Error::Overflow),
    {
        let field = match self.encoded_len() {
            Ok(l) => l,
            Err(e) => { return Err(e) },
        };
        Length(1).add(field)?.add(self)
    }
}

/// Decoding inverts encoding: the canonical octets of a length, followed by
/// anything, decode to that length and consume exactly those octets.
pub proof fn lemma_length_round_trip(l: Length, rest: Seq<u8>)
    ensures
        spec_length_decode(spec_length_octets(l.0) + rest) == Ok::<(Length, int), Error>(
            (l, spec_length_octets(l.0).len() as int),
        ),
{
    let v = l.0;
    let data = spec_length_octets(v) + rest;
    if v < 0x80 {
        assert(data[0] == v as u8);
    } else if v < 0x100 {
        assert(data[0] == 0x81u8 && data[1] == v as u8);
    } else if v < 0x10000 {
        assert(data[0] == 0x82u8 && data[1] == (v / 0x100) as u8 && data[2] == (v % 0x100) as u8);
        assert(data[1] != 0);
        assert((data[1] as u32) * 0x100 + (data[2] as u32) == v);
    } else if v < 0x1000000 {
        assert(data[0] == 0x83u8 && data[1] == (v / 0x10000) as u8 && data[2] == ((v / 0x100)
            % 0x100) as u8 && data[3] == (v % 0x100) as u8);
        assert(data[1] != 0);
        assert((v / 0x100) % 0x100 == v / 0x100 - (v / 0x10000) * 0x100);
        assert((data[1] as u32) * 0x10000 + (data[2] as u32) * 0x100 + (data[3] as u32) == v);
    } else {
        assert(data[0] == 0x84u8 && data[1] == (v / 0x1000000) as u8 && data[2] == ((v / 0x10000)
            % 0x100) as u8 && data[3] == ((v / 0x100) % 0x100) as u8 && data[4] == (v
            % 0x100) as u8);
        assert(data[1] != 0);
        assert((v / 0x10000) % 0x100 == v / 0x10000 - (v / 0x1000000) * 0x100);
        assert((v / 0x100) % 0x100 == v / 0x100 - (v / 0x10000) * 0x100);
        assert((data[1] as u32) * 0x1000000 + (data[2] as u32) * 0x10000 + (data[3] as u32) * 0x100
            + (data[4] as u32) == v);
    }
}

} // verus!

use crate::encode::Encode;
use crate::writer::Encoder;

verus! {

impl Encode for Length {
    /// A length field encodes as its canonical octets.
    open spec fn der_bytes(&self) -> Seq<u8> {
        spec_length_octets(self.0)
    }

    open spec fn enc_wf(&self) -> bool {
        true
    }

    fn encoded_len(&self) -> (r: Result<Length, Error>) {
        Length::encoded_len(*self)
    }

    fn encode(&self, encoder: &mut Encoder) -> (r: Result<(), Error>) {
        let ghost w0 = encoder.written();
        let v = self.0;
        proof {
            assert(self.der_bytes().len() == spec_length_octets(v).len());
        }
        if v < 0x80 {
            let r = encoder.byte(v as u8);
            proof {
                if r is Ok {
                    assert(encoder.written() =~= w0 + spec_length_octets(v));
                }
            }
            r
        } else if v < 0x100 {
            match encoder.byte(0x81) {
                Ok(()) => {},
                Err(e) => { return Err(e) },
            }
            let r = encoder.byte(v as u8);
            proof {
                if r is Ok {
                    assert(encoder.written() =~= w0 + spec_length_octets(v));
                }
            }
            r
        } else if v < 0x10000 {
            match encoder.byte(0x82) {
                Ok(()) => {},
                Err(e) => { return Err(e) },
            }
            match encoder.byte((v / 0x100) as u8) {
                Ok(()) => {},
                Err(e) => { return Err(e) },
            }
            let r = encoder.byte((v % 0x100) as u8);
            proof {
                if r is Ok {
                    assert(encoder.written() =~= w0 + spec_length_octets(v));
                }
            }
            r
        } else if v < 0x1000000 {
            match encoder.byte(0x83) {
                Ok(()) => {},
                Err(e) => { return Err(e) },
            }
            match encoder.byte((v / 0x10000) as u8) {
                Ok(()) => {},
                Err(e) => { return Err(e) },
            }
            match encoder.byte(((v / 0x100) % 0x100) as u8) {
                Ok(()) => {},
                Err(e) => { return Err(e) },
            }
            let r = encoder.byte((v % 0x100) as u8);
            proof {
                if r is Ok {
                    assert(encoder.written() =~= w0 + spec_length_octets(v));
                }
            }
            r
        } else {
            match encoder.byte(0x84) {
                Ok(()) => {},
                Err(e) => { return Err(e) },
            }
            match encoder.byte((v / 0x1000000) as u8) {
                Ok(()) => {},
                Err(e) => { return Err(e) },
            }
            match encoder.byte(((v / 0x10000) % 0x100) as u8) {
                Ok(()) => {},
                Err(e) => { return Err(e) },
            }
            match encoder.byte(((v / 0x100) % 0x100) as u8) {
                Ok(()) => {},
                Err(e) => { return Err(e) },
            }
            let r = encoder.byte((v % 0x100) as u8);
            proof {
                if r is Ok {
                    assert(encoder.written() =~= w0 + spec_length_octets(v));
                }
            }
            r
        }
    }
}

} // verus!

use crate::decode::Decode;
use crate::reader::Decoder;

verus! {

impl Decode for Length {
    open spec fn spec_decode(data: Seq<u8>) -> Result<(Length, int), Error> {
        spec_length_decode(data)
    }

    fn decode(decoder: &mut Decoder) -> (r: Result<Length, Error>) {
        let ghost rest0 = decoder.rest();
        proof {
            assert(Length::spec_decode(rest0) == spec_length_decode(rest0));
        }
        let b0 = match decoder.byte() {
            Ok(b) => b,
            Err(e) => { return Err(e) },
        };
        proof {
            assert(decoder.rest() =~= rest0.skip(1));
        }
        if b0 < 0x80 {
            Ok(Length(b0 as u32))
        } else if b0 == 0x80 {
            Err(Error::Overlength)
        } else if b0 == 0x81 {
            let b1 = match decoder.byte() {
                Ok(b) => b,
                Err(e) => { return Err(e) },
            };
            if b1 < 0x80 {
                Err(Error::Overlength)
            } else {
                Ok(Length(b1 as u32))
            }
        } else if b0 == 0x82 {
            let b1 = match decoder.byte() {
                Ok(b) => b,
                Err(e) => { return Err(e) },
            };
            proof {
                assert(decoder.rest() =~= rest0.skip(2));
            }
            let b2 = match decoder.byte() {
                Ok(b) => b,
                Err(e) => { return Err(e) },
            };
            if b1 == 0 {
                Err(Error::Overlength)
            } else {
                Ok(Length((b1 as u32) * 0x100 + (b2 as u32)))
            }
        } else if b0 == 0x83 {
            let b1 = match decoder.byte() {
                Ok(b) => b,
                Err(e) => { return Err(e) },
            };
            proof {
                assert(decoder.rest() =~= rest0.skip(2));
            }
            let b2 = match decoder.byte() {
                Ok(b) => b,
                Err(e) => { return Err(e) },
            };
            proof {
                assert(decoder.rest() =~= rest0.skip(3));
            }
            let b3 = match decoder.byte() {
                Ok(b) => b,
                Err(e) => { return Err(e) },
            };
            if b1 == 0 {
                Err(Error::Overlength)
            } else {
                Ok(Length((b1 as u32) * 0x10000 + (b2 as u32) * 0x100 + (b3 as u32)))
            }
        } else if b0 == 0x84 {
            let b1 = match decoder.byte() {
                Ok(b) => b,
                Err(e) => { return Err(e) },
            };
            proof {
                assert(decoder.rest() =~= rest0.skip(2));
            }
            let b2 = match decoder.byte() {
                Ok(b) => b,
                Err(e) => { return Err(e) },
            };
            proof {
                assert(decoder.rest() =~= rest0.skip(3));
            }
            let b3 = match decoder.byte() {
                Ok(b) => b,
                Err(e) => { return Err(e) },
            };
            proof {
                assert(decoder.rest() =~= rest0.skip(4));
            }
            let b4 = match decoder.byte() {
                Ok(b) => b,
                Err(e) => { return Err(e) },
            };
            if b1 == 0 {
                Err(Error::Overlength)
            } else {
                Ok(
                    Length(
                        (b1 as u32) * 0x1000000 + (b2 as u32) * 0x10000 + (b3 as u32) * 0x100 + (
                        b4 as u32),
                    ),
                )
            }
        } else {
            Err(Error::Overflow)
        }
    }
}

} // verus!
