//! Chunk-chain hashing.
//!
//! The transfer protocol chains chunks by the SHA-256 digest of the previous
//! chunk's raw bytes. The digest itself is computed by an outside
//! implementation; the library names its result and reasons about it
//! abstractly.
use vstd::prelude::*;
use sha2::Digest;

verus! {

/// Number of bytes in a SHA-256 digest.
pub const DIGEST_LEN: usize = 32;

/// The SHA-256 digest of a byte string. The digest is a function of the
/// input bytes alone; its value is not restated here.
pub uninterp spec fn sha256_of(data: Seq<u8>) -> Seq<u8>;

/// Relies on sha2::Sha256::digest: the digest depends on the input bytes
/// alone, and its output is always 32 bytes long.
#[verifier::external_body]
pub fn sha256(data: &Vec<u8>) -> (r: Vec<u8>)
    ensures
        r@ == sha256_of(data@),
        r@.len() == DIGEST_LEN,
{
    sha2::Sha256::digest(data.as_slice()).to_vec()
}

} // verus!
