//! The digest opcodes' cryptographic primitives. Each digest is a pure
//! function of its input alone; the results are given names and the
//! outside calls are trusted to return them. The two composite digests
//! are verified compositions of the primitives.

use vstd::prelude::*;

verus! {

/// The SHA-1 digest of a byte sequence.
pub uninterp spec fn sha1_of(b: Seq<u8>) -> Seq<u8>;

/// The RIPEMD-160 digest of a byte sequence.
pub uninterp spec fn ripemd160_of(b: Seq<u8>) -> Seq<u8>;

/// The SHA-256 digest of a byte sequence.
pub uninterp spec fn sha256_of(b: Seq<u8>) -> Seq<u8>;

/// Relies on sha1::Sha1: the 20-byte SHA-1 digest, a function of the
/// input alone.
#[verifier::external_body]
pub fn sha1_digest(b: &Vec<u8>) -> (r: Vec<u8>)
    ensures
        r@ == sha1_of(b@),
        r@.len() == 20,
{
    <sha1::Sha1 as sha1::Digest>::digest(b.as_slice()).to_vec()
}

/// Relies on ripemd::Ripemd160: the 20-byte RIPEMD-160 digest, a
/// function of the input alone.
#[verifier::external_body]
pub fn ripemd160_digest(b: &Vec<u8>) -> (r: Vec<u8>)
    ensures
        r@ == ripemd160_of(b@),
        r@.len() == 20,
{
    <ripemd::Ripemd160 as ripemd::Digest>::digest(b.as_slice()).to_vec()
}

/// Relies on sha2::Sha256: the 32-byte SHA-256 digest, a function of the
/// input alone.
#[verifier::external_body]
pub fn sha256_digest(b: &Vec<u8>) -> (r: Vec<u8>)
    ensures
        r@ == sha256_of(b@),
        r@.len() == 32,
{
    <sha2::Sha256 as sha2::Digest>::digest(b.as_slice()).to_vec()
}

/// The double-SHA-256 digest.
pub fn sha256d_digest(b: &Vec<u8>) -> (r: Vec<u8>)
    ensures
        r@ == sha256_of(sha256_of(b@)),
        r@.len() == 32,
{
    let h = sha256_digest(b);
    sha256_digest(&h)
}

/// The RIPEMD-160 digest of the SHA-256 digest.
pub fn hash160_digest(b: &Vec<u8>) -> (r: Vec<u8>)
    ensures
        r@ == ripemd160_of(sha256_of(b@)),
        r@.len() == 20,
{
    let h = sha256_digest(b);
    ripemd160_digest(&h)
}

} // verus!
