//! Content digests: the trusted digest and hex-encoding calls, and the
//! verified hex digest of a byte string.

use vstd::prelude::*;

verus! {

/// The digest that hashing a byte string yields; a function of the bytes
/// alone.
pub uninterp spec fn sha256_of(data: Seq<u8>) -> Seq<u8>;

/// Relies on `sha2::Sha256::digest`: the digest depends on the bytes alone
/// and is 32 bytes long.
#[verifier::external_body]
pub(crate) fn sha256_digest(data: &Vec<u8>) -> (r: Vec<u8>)
    ensures
        r@ == sha256_of(data@),
        r@.len() == 32,
{
    <sha2::Sha256 as sha2::Digest>::digest(data.as_slice()).to_vec()
}

/// The lower-case hex digit of a nibble.
pub open spec fn hex_digit(n: u8) -> u8 {
    if n < 10 {
        (48 + n) as u8
    } else {
        (87 + n) as u8
    }
}

/// The lower-case hex encoding of a byte string: two digits per byte, high
/// nibble first.
pub open spec fn spec_hex(data: Seq<u8>) -> Seq<u8> {
    Seq::new(
        data.len() * 2,
        |i: int|
            if i % 2 == 0 {
                hex_digit(data[i / 2] / 16)
            } else {
                hex_digit(data[i / 2] % 16)
            },
    )
}

/// Relies on `hex::encode`: lower-case hex, two digits per byte, high nibble
/// first.
#[verifier::external_body]
pub(crate) fn hex_encode(data: &Vec<u8>) -> (r: Vec<u8>)
    ensures
        r@ == spec_hex(data@),
{
    hex::encode(data.as_slice()).into_bytes()
}

/// The hex digest of a byte string: 64 lower-case hex digits.
pub fn digest_hex(data: &Vec<u8>) -> (r: Vec<u8>)
    ensures
        r@ == spec_hex(sha256_of(data@)),
        r@.len() == 64,
{
    let d = sha256_digest(data);
    hex_encode(&d)
}

} // verus!
