//! Fingerprints: 256-bit digests of byte strings.

use crate::u256::U256;
use sha2::Digest;
use vstd::prelude::*;

verus! {

/// The number that the SHA-256 digest of `data` spells, most significant
/// byte first.
pub uninterp spec fn sha256_value(data: Seq<u8>) -> nat;

/// The 256-bit integer with the given value, for values below `2^256`.
pub open spec fn u256_of(n: nat) -> U256 {
    U256 {
        hi: (n / 0x1_0000_0000_0000_0000_0000_0000_0000_0000nat) as u128,
        lo: (n % 0x1_0000_0000_0000_0000_0000_0000_0000_0000nat) as u128,
    }
}

/// Calls `sha2::Sha256::digest` on `data`. Trusted: the 32 bytes of the
/// digest, read as one number with the most significant byte first, are the
/// value of the result; the digest depends on `data` alone.
#[verifier::external_body]
fn sha256_of(data: &Vec<u8>) -> (r: U256)
    ensures
        r@ == sha256_value(data@),
{
    let digest = sha2::Sha256::digest(data);
    let mut hi = [0u8; 16];
    let mut lo = [0u8; 16];
    hi.copy_from_slice(&digest[..16]);
    lo.copy_from_slice(&digest[16..]);
    U256 { hi: u128::from_be_bytes(hi), lo: u128::from_be_bytes(lo) }
}

/// A fingerprint: the digest of a record's canonical bytes, as an integer.
#[derive(Clone, Copy, Debug, PartialEq, Eq, Structural)]
pub struct Hash(pub U256);

impl Hash {
    /// The fingerprint of the bytes `data`.
    pub open spec fn of(data: Seq<u8>) -> Hash {
        Hash(u256_of(sha256_value(data)))
    }

    /// Fingerprints `data`, the canonical bytes of a record.
    pub fn hash(data: &Vec<u8>) -> (r: Hash)
        ensures
            r == Hash::of(data@),
    {
        let value = sha256_of(data);
        Hash(value)
    }

    /// Whether the fingerprint, as an integer, is at most `target`.
    pub fn matches_target(&self, target: U256) -> (r: bool)
        ensures
            r == (self.0@ <= target@),
    {
        self.0.le(&target)
    }

    /// The fingerprint that stands for "no predecessor".
    pub fn zero() -> (r: Hash)
        ensures
            r.0@ == 0,
            r == Hash(U256 { hi: 0, lo: 0 }),
    {
        Hash(U256::zero())
    }
}

} // verus!
