//! The two Keccak digests the scheme is built on, taken from the `sha3` crate.
use sha3::Digest;
use vstd::prelude::*;

verus! {

/// The Keccak-512 digest (original Keccak padding, not FIPS-202 SHA3) of a byte string.
pub uninterp spec fn keccak512_of(data: Seq<u8>) -> Seq<u8>;

/// The Keccak-256 digest (original Keccak padding, not FIPS-202 SHA3) of a byte string.
pub uninterp spec fn keccak256_of(data: Seq<u8>) -> Seq<u8>;

/// Relies on `sha3::Keccak512::digest`: a 64-byte digest that depends on the input bytes alone.
#[verifier::external_body]
pub(crate) fn keccak_512(data: &[u8]) -> (r: [u8; 64])
    ensures
        r@ == keccak512_of(data@),
{
    sha3::Keccak512::digest(data).into()
}

/// Relies on `sha3::Keccak256::digest`: a 32-byte digest that depends on the input bytes alone.
#[verifier::external_body]
pub(crate) fn keccak_256(data: &[u8]) -> (r: [u8; 32])
    ensures
        r@ == keccak256_of(data@),
{
    sha3::Keccak256::digest(data).into()
}

} // verus!
