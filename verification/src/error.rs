//! Error types shared by every encoding and decoding operation.

use vstd::prelude::*;

use crate::length::Length;
use crate::tag::Tag;

verus! {

/// Failure modes of DER encoding and decoding.
///
/// Every fallible operation in this crate surfaces one of these values; no
/// error is ever downgraded to a default result.
#[derive(Copy, Clone, Debug, PartialEq, Eq, Structural)]
pub enum Error {
    /// An integer or length computation exceeded the representable capacity,
    /// or a write ran past the end of the output buffer.
    Overflow,

    /// A length field's own encoding is structurally non-canonical: empty
    /// long form, the reserved indefinite-length octet, or redundant octets.
    Overlength,

    /// A header's length field was structurally non-canonical; names the tag
    /// whose length failed to parse.
    Length { tag: Tag },

    /// Content octets do not match the expected shape or semantics for the
    /// given tag.
    Value { tag: Tag },

    /// The tag octet is unrecognized or uses an unsupported form; names the
    /// offending byte.
    TagUnknown { byte: u8 },

    /// A decoded tag differs from the tag the value type expects.
    UnexpectedTag { expected: Tag, actual: Tag },

    /// Fewer bytes were available than an operation needed.
    Incomplete { expected_len: Length, actual_len: Length },

    /// A calendar component was out of range or the date does not exist.
    DateTime,

    /// Bytes remained in the input after a complete value was decoded.
    TrailingData { decoded: Length, remaining: Length },
}

} // verus!
