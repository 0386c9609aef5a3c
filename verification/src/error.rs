//! The ways in which a block or a transaction can be refused.

use vstd::prelude::*;

verus! {

/// The rule that a refused block or transaction broke.
#[derive(Clone, Copy, Debug, PartialEq, Eq, Structural)]
pub enum SbdError {
    /// A malformed coinbase, an unknown or repeated input, or too little value.
    InvalidTransaction,
    /// The chain linkage, the proof of work or the timestamp rule is broken.
    InvalidBlock,
    /// The header's merkle root is not the root of the block's transactions.
    InvalidMerkleRoot,
    /// An input's signature does not verify against the spent output's key.
    InvalidSignature,
}

impl SbdError {
    /// The description of each error.
    pub open spec fn spec_message(&self) -> Seq<char> {
        match self {
            SbdError::InvalidTransaction => "Invalid transaction"@,
            SbdError::InvalidBlock => "Invalid block"@,
            SbdError::InvalidMerkleRoot => "Invalid Merkle root"@,
            SbdError::InvalidSignature => "Invalid signature"@,
        }
    }

    /// A short description of the error.
    pub fn message(&self) -> (r: &'static str)
        ensures
            r@ == self.spec_message(),
    {
        let r = match self {
            SbdError::InvalidTransaction => "Invalid transaction",
            SbdError::InvalidBlock => "Invalid block",
            SbdError::InvalidMerkleRoot => "Invalid Merkle root",
            SbdError::InvalidSignature => "Invalid signature",
        };
        r
    }
}

} // verus!
