use vstd::prelude::*;

use sha2::Digest;

verus! {

/// The digest of the destination chain's native pairwise hash primitive
/// (Keccak-256), as a function of the input bytes alone. The primitive
/// itself lives in an outside crate; nothing further is assumed of the
/// digest than what the trusted wrapper below states.
pub uninterp spec fn keccak256_of(data: Seq<u8>) -> Seq<u8>;

/// The digest of the general-purpose tree hash primitive (SHA-256), as a
/// function of the input bytes alone.
pub uninterp spec fn sha256_of(data: Seq<u8>) -> Seq<u8>;

/// Relies on sha3::Keccak256 (through digest::Digest::digest): the
/// Keccak-256 digest is 32 bytes long and depends on the input bytes alone.
#[verifier::external_body]
pub fn keccak256(data: &Vec<u8>) -> (r: Vec<u8>)
    ensures
        r@ == keccak256_of(data@),
        r@.len() == 32,
{
    sha3::Keccak256::digest(data.as_slice()).to_vec()
}

/// Relies on sha2::Sha256 (through digest::Digest::digest): the SHA-256
/// digest is 32 bytes long and depends on the input bytes alone.
#[verifier::external_body]
pub fn sha256(data: &Vec<u8>) -> (r: Vec<u8>)
    ensures
        r@ == sha256_of(data@),
        r@.len() == 32,
{
    sha2::Sha256::digest(data.as_slice()).to_vec()
}

} // verus!
