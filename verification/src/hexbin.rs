//! Fixed-size byte arrays with a hexadecimal text form, and verified hex
//! decoding on top of an outside decoder.

use vstd::prelude::*;

verus! {

/// Failure modes of hex decoding.
#[derive(Copy, Clone, Debug, PartialEq, Eq, Structural)]
pub enum HexError {
    /// The input's length is not exactly twice the output's length.
    InvalidLength,
    /// A byte is not an ASCII hex digit.
    InvalidEncoding,
}

/// ASCII hex digits, upper or lower case.
pub open spec fn spec_is_hex_digit(b: u8) -> bool {
    (0x30 <= b <= 0x39) || (0x41 <= b <= 0x46) || (0x61 <= b <= 0x66)
}

/// The value of one hex digit.
pub open spec fn spec_hex_val(b: u8) -> int {
    if 0x30 <= b <= 0x39 {
        b - 0x30
    } else if 0x41 <= b <= 0x46 {
        b - 0x41 + 10
    } else {
        b - 0x61 + 10
    }
}

/// The byte a pair of hex digits denotes.
pub open spec fn spec_hex_byte(hi: u8, lo: u8) -> int {
    spec_hex_val(hi) * 16 + spec_hex_val(lo)
}

/// Relies on `base16ct::mixed::decode`: with a destination of exactly half
/// the source's length it succeeds exactly when every source byte is a hex
/// digit of either case, writing the denoted bytes in order; any other byte
/// is `InvalidEncoding`. The destination keeps its length either way.
#[verifier::external_body]
fn base16_decode_mixed(src: &[u8], dst: &mut Vec<u8>) -> (r: Result<usize, HexError>)
    requires
        src@.len() == 2 * old(dst)@.len(),
    ensures
        final(dst)@.len() == old(dst)@.len(),
        r is Ok <==> (forall|i: int| 0 <= i < src@.len() ==> spec_is_hex_digit(#[trigger] src@[i])),
        r matches Ok(n) ==> n == final(dst)@.len() && (forall|j: int| 0 <= j < final(dst)@.len() ==> final(dst)@[j] == spec_hex_byte(src@[2 * j], src@[2 * j + 1])),
        r is Err ==> (r matches Err(e) && e == HexError::InvalidEncoding),
{
    match base16ct::mixed::decode(src, dst.as_mut_slice()) {
        Ok(decoded) => Ok(decoded.len()),
        Err(base16ct::Error::InvalidEncoding) => Err(HexError::InvalidEncoding),
        Err(base16ct::Error::InvalidLength) => Err(HexError::InvalidLength),
    }
}

/// Decode a hex string into exactly `out_len` bytes: an input of any other
/// length than `2 * out_len` is `InvalidLength` before any digit is read,
/// and a non-digit byte is `InvalidEncoding`.
pub fn decode_hex(hex: &[u8], out_len: usize) -> (r: Result<Vec<u8>, HexError>)
    ensures
        hex@.len() != 2 * out_len ==> r == Err::<Vec<u8>, HexError>(HexError::InvalidLength),
        hex@.len() == 2 * out_len ==> match r {
            Ok(v) => v@.len() == out_len && (forall|i: int|
                0 <= i < hex@.len() ==> spec_is_hex_digit(#[trigger] hex@[i])) && (forall|j: int|
                0 <= j < out_len ==> v@[j] == spec_hex_byte(hex@[2 * j], hex@[2 * j + 1])),
            Err(e) => e == HexError::InvalidEncoding && !(forall|i: int|
                0 <= i < hex@.len() ==> spec_is_hex_digit(#[trigger] hex@[i])),
        },
{
    let hex_len = hex.len();
    if !(out_len <= usize::MAX / 2 && hex_len == 2 * out_len) {
        return Err(HexError::InvalidLength);
    }
    let mut out: Vec<u8> = Vec::new();
    while out.len() < out_len
        invariant
            out@.len() <= out_len,
        decreases out_len - out.len(),
    {
        out.push(0);
    }
    match base16_decode_mixed(hex, &mut out) {
        Ok(_) => Ok(out),
        Err(e) => Err(e),
    }
}

/// A fixed-size byte array meant to travel as hexadecimal text in
/// human-readable formats and as raw bytes in binary ones. The case flag
/// records which hex alphabet its text form uses; the TLV engine never
/// reads it.
#[derive(Copy, Clone, Debug, PartialEq, Eq)]
pub struct HexOrBin<const N: usize, const UPPERCASE: bool>(pub [u8; N]);

impl<const N: usize, const UPPERCASE: bool> HexOrBin<N, UPPERCASE> {
    /// Wrap an array of bytes.
    pub fn new(bytes: [u8; N]) -> (r: Self)
        ensures
            r.0@ == bytes@,
    {
        HexOrBin(bytes)
    }

    /// The wrapped bytes.
    pub fn as_bytes(&self) -> (r: &[u8; N])
        ensures
            r@ == self.0@,
    {
        &self.0
    }

    /// Unwrap into the plain array.
    pub fn into_bytes(self) -> (r: [u8; N])
        ensures
            r@ == self.0@,
    {
        self.0
    }
}

} // verus!
