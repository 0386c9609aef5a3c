//! Keys and signatures as plain values, and the check of a signature.

use crate::u256::U256;
use k256::ecdsa::signature::Verifier;
use vstd::prelude::*;

verus! {

/// A secp256k1 public key in compressed form: the tag byte and the
/// x-coordinate.
#[derive(Clone, Copy, Debug, PartialEq, Eq, Structural)]
pub struct PublicKey {
    pub tag: u8,
    pub x: U256,
}

/// An ECDSA signature: its two scalars.
#[derive(Clone, Copy, Debug, PartialEq, Eq, Structural)]
pub struct Signature {
    pub r: U256,
    pub s: U256,
}

/// Whether ECDSA over secp256k1 accepts the signature with scalars `r` and
/// `s` for the 32 bytes of `message` under the compressed key `tag`, `x`.
pub uninterp spec fn ecdsa_accepts(r: nat, s: nat, message: nat, tag: u8, x: nat) -> bool;

/// Calls `k256::ecdsa::VerifyingKey::verify` on the 32 big-endian bytes of
/// `message`, after `VerifyingKey::from_sec1_bytes` and
/// `Signature::from_slice` have read the key and the signature from their
/// bytes. Trusted: the answer depends on these values alone; bytes that are
/// no key or no signature give `false`.
#[verifier::external_body]
fn ecdsa_verify(signature: &Signature, message: &U256, key: &PublicKey) -> (ok: bool)
    ensures
        ok == ecdsa_accepts(signature.r@, signature.s@, message@, key.tag, key.x@),
{
    let sec1 = [&[key.tag][..], &key.x.hi.to_be_bytes(), &key.x.lo.to_be_bytes()].concat();
    let sig = [signature.r.hi.to_be_bytes(), signature.r.lo.to_be_bytes(),
        signature.s.hi.to_be_bytes(), signature.s.lo.to_be_bytes()].concat();
    let msg = [message.hi.to_be_bytes(), message.lo.to_be_bytes()].concat();
    match (k256::ecdsa::VerifyingKey::from_sec1_bytes(&sec1), k256::ecdsa::Signature::from_slice(&sig)) {
        (Ok(k), Ok(s)) => k.verify(&msg, &s).is_ok(),
        _ => false,
    }
}

impl Signature {
    /// Whether the signature is one of `message` under `key`.
    pub open spec fn valid_for(&self, message: crate::sha256::Hash, key: PublicKey) -> bool {
        ecdsa_accepts(self.r@, self.s@, message.0@, key.tag, key.x@)
    }

    /// Checks the signature of `message` against `key`.
    pub fn verify(&self, message: &crate::sha256::Hash, key: &PublicKey) -> (ok: bool)
        ensures
            ok == self.valid_for(*message, *key),
    {
        ecdsa_verify(self, &message.0, key)
    }
}

} // verus!
