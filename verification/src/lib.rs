//! ASN.1 DER: a canonical Tag-Length-Value codec.
//!
//! DER assigns every value exactly one byte encoding, which is what makes
//! signatures over encoded data meaningful. This crate provides the TLV
//! engine — tags, canonical length fields, headers, cursor-based encoding
//! and decoding, the `Encode` / `Decode` contracts, and canonical ordering —
//! together with the strict RFC 5280 profile of `GeneralizedTime` as a
//! worked value type, and a hex form for fixed-size byte arrays.

pub mod datetime;
pub mod decode;
pub mod encode;
pub mod error;
pub mod generalized_time;
pub mod header;
pub mod hexbin;
pub mod length;
pub mod ord;
pub mod reader;
pub mod tag;
pub mod writer;

pub use datetime::DateTime;
pub use datetime::UnixDuration;
pub use decode::Decode;
pub use decode::DecodeValue;
pub use encode::Encode;
pub use encode::EncodeValue;
pub use encode::FixedTag;
pub use error::Error;
pub use generalized_time::GeneralizedTime;
pub use header::Header;
pub use hexbin::HexOrBin;
pub use length::Length;
pub use ord::DerOrd;
pub use reader::Decoder;
pub use tag::Tag;
pub use writer::Encoder;
