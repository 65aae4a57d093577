//! Content hashing of battle names, for external reference stability.

use vstd::prelude::*;
use sha3::Digest;

verus! {

/// The Keccak-256 digest of a string's characters. The digest depends on
/// the characters alone, so the result is named rather than written out.
pub uninterp spec fn keccak_of(s: Seq<char>) -> Seq<u8>;

/// Relies on `sha3::Keccak256::digest` (via the `digest` crate's `Digest`
/// trait): a 32-byte digest that is a function of the input bytes alone.
#[verifier::external_body]
pub fn keccak_hash(s: &str) -> (r: [u8; 32])
    ensures
        r@ == keccak_of(s@),
{
    sha3::Keccak256::digest(s.as_bytes()).into()
}

} // verus!
