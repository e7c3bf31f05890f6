//! ASN.1 tags: the first octet of every TLV-encoded value.

use vstd::prelude::*;

use crate::error::Error;

verus! {

/// ASN.1 tag, restricted to the single-octet forms: the universal types this
/// codec knows, plus application, context-specific and private tags whose
/// number fits in five bits.
#[derive(Copy, Clone, Debug, PartialEq, Eq, Structural)]
pub enum Tag {
    /// `BOOLEAN`.
    Boolean,
    /// `INTEGER`.
    Integer,
    /// `BIT STRING`.
    BitString,
    /// `OCTET STRING`.
    OctetString,
    /// `NULL`.
    Null,
    /// `OBJECT IDENTIFIER`.
    ObjectIdentifier,
    /// `ENUMERATED`.
    Enumerated,
    /// `UTF8String`.
    Utf8String,
    /// `NumericString`.
    NumericString,
    /// `PrintableString`.
    PrintableString,
    /// `IA5String`.
    Ia5String,
    /// `UTCTime`.
    UtcTime,
    /// `GeneralizedTime`.
    GeneralizedTime,
    /// `SEQUENCE` (always constructed).
    Sequence,
    /// `SET` / `SET OF` (always constructed).
    SetOf,
    /// Application-class tag.
    Application { constructed: bool, number: u8 },
    /// Context-specific tag.
    ContextSpecific { constructed: bool, number: u8 },
    /// Private-class tag.
    Private { constructed: bool, number: u8 },
}

impl Tag {
    /// A tag is well-formed when its number fits the single-octet form.
    pub open spec fn wf(self) -> bool {
        match self {
            Tag::Application { constructed, number } => number <= 30,
            Tag::ContextSpecific { constructed, number } => number <= 30,
            Tag::Private { constructed, number } => number <= 30,
            _ => true,
        }
    }

    /// The octet that encodes this tag: class bits, constructed bit, number.
    pub open spec fn spec_octet(self) -> u8 {
        match self {
            Tag::Boolean => 0x01,
            Tag::Integer => 0x02,
            Tag::BitString => 0x03,
            Tag::OctetString => 0x04,
            Tag::Null => 0x05,
            Tag::ObjectIdentifier => 0x06,
            Tag::Enumerated => 0x0a,
            Tag::Utf8String => 0x0c,
            Tag::NumericString => 0x12,
            Tag::PrintableString => 0x13,
            Tag::Ia5String => 0x16,
            Tag::UtcTime => 0x17,
            Tag::GeneralizedTime => 0x18,
            Tag::Sequence => 0x30,
            Tag::SetOf => 0x31,
            Tag::Application { constructed, number } => (0x40 + if constructed {
                0x20int
            } else {
                0int
            } + (number & 0x1f)) as u8,
            Tag::ContextSpecific { constructed, number } => (0x80 + if constructed {
                0x20int
            } else {
                0int
            } + (number & 0x1f)) as u8,
            Tag::Private { constructed, number } => (0xc0 + if constructed {
                0x20int
            } else {
                0int
            } + (number & 0x1f)) as u8,
        }
    }

    /// The tag a single octet decodes to, or the exact error when it has no
    /// single-octet interpretation this codec accepts.
    pub open spec fn spec_from_octet(b: u8) -> Result<Tag, Error> {
        if b == 0x01 {
            Ok(Tag::Boolean)
        } else if b == 0x02 {
            Ok(Tag::Integer)
        } else if b == 0x03 {
            Ok(Tag::BitString)
        } else if b == 0x04 {
            Ok(Tag::OctetString)
        } else if b == 0x05 {
            Ok(Tag::Null)
        } else if b == 0x06 {
            Ok(Tag::ObjectIdentifier)
        } else if b == 0x0a {
            Ok(Tag::Enumerated)
        } else if b == 0x0c {
            Ok(Tag::Utf8String)
        } else if b == 0x12 {
            Ok(Tag::NumericString)
        } else if b == 0x13 {
            Ok(Tag::PrintableString)
        } else if b == 0x16 {
            Ok(Tag::Ia5String)
        } else if b == 0x17 {
            Ok(Tag::UtcTime)
        } else if b == 0x18 {
            Ok(Tag::GeneralizedTime)
        } else if b == 0x30 {
            Ok(Tag::Sequence)
        } else if b == 0x31 {
            Ok(Tag::SetOf)
        } else if b / 0x40 >= 1 && b % 0x20 < 0x1f {
            let constructed = (b / 0x20) % 2 == 1;
            let number = b % 0x20;
            if b / 0x40 == 1 {
                Ok(Tag::Application { constructed, number })
            } else if b / 0x40 == 2 {
                Ok(Tag::ContextSpecific { constructed, number })
            } else {
                Ok(Tag::Private { constructed, number })
            }
        } else {
            Err(Error::TagUnknown { byte: b })
        }
    }

    /// The octet that encodes this tag.
    pub fn octet(self) -> (r: u8)
        ensures
            r == self.spec_octet(),
    {
        match self {
            Tag::Boolean => 0x01,
            Tag::Integer => 0x02,
            Tag::BitString => 0x03,
            Tag::OctetString => 0x04,
            Tag::Null => 0x05,
            Tag::ObjectIdentifier => 0x06,
            Tag::Enumerated => 0x0a,
            Tag::Utf8String => 0x0c,
            Tag::NumericString => 0x12,
            Tag::PrintableString => 0x13,
            Tag::Ia5String => 0x16,
            Tag::UtcTime => 0x17,
            Tag::GeneralizedTime => 0x18,
            Tag::Sequence => 0x30,
            Tag::SetOf => 0x31,
            Tag::Application { constructed, number } => {
                assert(number & 0x1f <= 0x1f) by (bit_vector);
                0x40 + (if constructed { 0x20u8 } else { 0u8 }) + (number & 0x1f)
            },
            Tag::ContextSpecific { constructed, number } => {
                assert(number & 0x1f <= 0x1f) by (bit_vector);
                0x80 + (if constructed { 0x20u8 } else { 0u8 }) + (number & 0x1f)
            },
            Tag::Private { constructed, number } => {
                assert(number & 0x1f <= 0x1f) by (bit_vector);
                0xc0 + (if constructed { 0x20u8 } else { 0u8 }) + (number & 0x1f)
            },
        }
    }

    /// Decode a tag from its single octet.
    pub fn from_octet(b: u8) -> (r: Result<Tag, Error>)
        ensures
            r == Tag::spec_from_octet(b),
    {
        if b == 0x01 {
            Ok(Tag::Boolean)
        } else if b == 0x02 {
            Ok(Tag::Integer)
        } else if b == 0x03 {
            Ok(Tag::BitString)
        } else if b == 0x04 {
            Ok(Tag::OctetString)
        } else if b == 0x05 {
            Ok(Tag::Null)
        } else if b == 0x06 {
            Ok(Tag::ObjectIdentifier)
        } else if b == 0x0a {
            Ok(Tag::Enumerated)
        } else if b == 0x0c {
            Ok(Tag::Utf8String)
        } else if b == 0x12 {
            Ok(Tag::NumericString)
        } else if b == 0x13 {
            Ok(Tag::PrintableString)
        } else if b == 0x16 {
            Ok(Tag::Ia5String)
        } else if b == 0x17 {
            Ok(Tag::UtcTime)
        } else if b == 0x18 {
            Ok(Tag::GeneralizedTime)
        } else if b == 0x30 {
            Ok(Tag::Sequence)
        } else if b == 0x31 {
            Ok(Tag::SetOf)
        } else if b / 0x40 >= 1 && b % 0x20 < 0x1f {
            let constructed: bool = (b / 0x20) % 2 == 1;
            let number: u8 = b % 0x20;
            if b / 0x40 == 1 {
                Ok(Tag::Application { constructed, number })
            } else if b / 0x40 == 2 {
                Ok(Tag::ContextSpecific { constructed, number })
            } else {
                Ok(Tag::Private { constructed, number })
            }
        } else {
            Err(Error::TagUnknown { byte: b })
        }
    }

    /// The error raised when content octets do not fit this tag's value shape.
    pub fn value_error(self) -> (r: Error)
        ensures
            r == (Error::Value { tag: self }),
    {
        Error::Value { tag: self }
    }

    /// Decoding inverts encoding: a well-formed tag's octet parses back to
    /// the same tag.
    pub proof fn lemma_octet_round_trip(t: Tag)
        requires
            t.wf(),
        ensures
            Tag::spec_from_octet(t.spec_octet()) == Ok::<Tag, Error>(t),
    {
        match t {
            Tag::Application { constructed, number } => {
                assert(number & 0x1f == number) by (bit_vector)
                    requires
                        number <= 30,
                ;
            },
            Tag::ContextSpecific { constructed, number } => {
                assert(number & 0x1f == number) by (bit_vector)
                    requires
                        number <= 30,
                ;
            },
            Tag::Private { constructed, number } => {
                assert(number & 0x1f == number) by (bit_vector)
                    requires
                        number <= 30,
                ;
            },
            _ => {},
        }
    }
}

} // verus!

use crate::length::Length;
use crate::writer::Encoder;
use crate::encode::Encode;

verus! {

impl Encode for Tag {
    /// A tag encodes as its single octet.
    open spec fn der_bytes(&self) -> Seq<u8> {
        seq![self.spec_octet()]
    }

    open spec fn enc_wf(&self) -> bool {
        true
    }

    fn encoded_len(&self) -> (r: Result<Length, Error>) {
        Ok(Length(1))
    }

    fn encode(&self, encoder: &mut Encoder) -> (r: Result<(), Error>) {
        let ghost w0 = encoder.written();
        let r = encoder.byte(self.octet());
        proof {
            if r is Ok {
                assert(encoder.written() =~= w0 + self.der_bytes());
            }
        }
        r
    }
}

} // verus!

use crate::decode::Decode;
use crate::length::spec_byte_underrun;
use crate::reader::Decoder;

verus! {

impl Decode for Tag {
    open spec fn spec_decode(data: Seq<u8>) -> Result<(Tag, int), Error> {
        if data.len() < 1 {
            Err(spec_byte_underrun())
        } else {
            match Tag::spec_from_octet(data[0]) {
                Ok(t) => Ok((t, 1)),
                Err(e) => Err(e),
            }
        }
    }

    fn decode(decoder: &mut Decoder) -> (r: Result<Tag, Error>) {
        let ghost rest0 = decoder.rest();
        let b = match decoder.byte() {
            Ok(b) => b,
            Err(e) => {
                proof {
                    assert(rest0.len() == 0);
                    assert(e == spec_byte_underrun());
                    assert(Tag::spec_decode(rest0) == Err::<(Tag, int), Error>(
                        spec_byte_underrun(),
                    ));
                }
                return Err(e)
            },
        };
        proof {
            assert(rest0.len() > 0 && b == rest0[0]);
            assert(Tag::spec_decode(rest0) == match Tag::spec_from_octet(b) {
                Ok(t) => Ok::<(Tag, int), Error>((t, 1)),
                Err(e) => Err::<(Tag, int), Error>(e),
            });
        }
        Tag::from_octet(b)
    }
}

} // verus!
