//! The records of the ledger and their canonical bytes.

use crate::crypto::{PublicKey, Signature};
use crate::u256::U256;
use crate::utils::MerkleRoot;
use vstd::bytes::{spec_u128_to_le_bytes, spec_u64_to_le_bytes, u128_to_le_bytes, u64_to_le_bytes};
use vstd::prelude::*;

verus! {

/// The bytes of a 256-bit integer: the upper half, then the lower half.
pub open spec fn u256_bytes(v: U256) -> Seq<u8> {
    spec_u128_to_le_bytes(v.hi) + spec_u128_to_le_bytes(v.lo)
}

/// The bytes of a length.
pub open spec fn len_bytes(n: nat) -> Seq<u8> {
    spec_u64_to_le_bytes(n as u64)
}

pub(crate) fn push_bytes(out: &mut Vec<u8>, more: Vec<u8>)
    ensures
        final(out)@ == old(out)@ + more@,
{
    let mut more = more;
    out.append(&mut more);
}

pub(crate) fn push_u64(out: &mut Vec<u8>, v: u64)
    ensures
        final(out)@ == old(out)@ + spec_u64_to_le_bytes(v),
{
    push_bytes(out, u64_to_le_bytes(v));
}

pub(crate) fn push_u256(out: &mut Vec<u8>, v: U256)
    ensures
        final(out)@ == old(out)@ + u256_bytes(v),
{
    push_bytes(out, u128_to_le_bytes(v.hi));
    push_bytes(out, u128_to_le_bytes(v.lo));
    assert(final(out)@ =~= old(out)@ + u256_bytes(v));
}

/// A claim on an earlier output: the fingerprint of the transaction that
/// owns it, and a signature of that fingerprint.
#[derive(Clone, Copy, Debug, PartialEq, Eq, Structural)]
pub struct TransactionInput {
    pub prev_transaction_output_hash: crate::sha256::Hash,
    pub signature: Signature,
}

/// An amount paid to a key.
#[derive(Clone, Copy, Debug, PartialEq, Eq, Structural)]
pub struct TransactionOutput {
    pub value: u64,
    pub unique_id: u128,
    pub pubkey: PublicKey,
}

/// Inputs that are spent and outputs that are created. A transaction
/// without inputs is a coinbase.
#[derive(Debug)]
pub struct Transaction {
    pub inputs: Vec<TransactionInput>,
    pub outputs: Vec<TransactionOutput>,
}

impl TransactionInput {
    pub open spec fn encoding(&self) -> Seq<u8> {
        u256_bytes(self.prev_transaction_output_hash.0) + u256_bytes(self.signature.r)
            + u256_bytes(self.signature.s)
    }

    pub(crate) fn encode_into(&self, out: &mut Vec<u8>)
        ensures
            final(out)@ == old(out)@ + self.encoding(),
    {
        push_u256(out, self.prev_transaction_output_hash.0);
        push_u256(out, self.signature.r);
        push_u256(out, self.signature.s);
        assert(final(out)@ =~= old(out)@ + self.encoding());
    }
}

impl TransactionOutput {
    pub open spec fn encoding(&self) -> Seq<u8> {
        spec_u64_to_le_bytes(self.value) + spec_u128_to_le_bytes(self.unique_id)
            + seq![self.pubkey.tag] + u256_bytes(self.pubkey.x)
    }

    pub(crate) fn encode_into(&self, out: &mut Vec<u8>)
        ensures
            final(out)@ == old(out)@ + self.encoding(),
    {
        push_u64(out, self.value);
        push_bytes(out, u128_to_le_bytes(self.unique_id));
        out.push(self.pubkey.tag);
        push_u256(out, self.pubkey.x);
        assert(final(out)@ =~= old(out)@ + self.encoding());
    }

    /// The canonical bytes of the output.
    pub fn encode(&self) -> (r: Vec<u8>)
        ensures
            r@ == self.encoding(),
    {
        let mut out: Vec<u8> = Vec::new();
        self.encode_into(&mut out);
        assert(out@ =~= self.encoding());
        out
    }

    pub open spec fn spec_hash(&self) -> crate::sha256::Hash {
        crate::sha256::Hash::of(self.encoding())
    }

    /// The fingerprint of the output.
    pub fn hash(&self) -> (r: crate::sha256::Hash)
        ensures
            r == self.spec_hash(),
    {
        crate::sha256::Hash::hash(&self.encode())
    }
}

/// The bytes of a list of inputs, one after the other.
pub open spec fn inputs_encoding(s: Seq<TransactionInput>) -> Seq<u8>
    decreases s.len(),
{
    if s.len() == 0 {
        Seq::empty()
    } else {
        inputs_encoding(s.drop_last()) + s.last().encoding()
    }
}

/// The bytes of a list of outputs, one after the other.
pub open spec fn outputs_encoding(s: Seq<TransactionOutput>) -> Seq<u8>
    decreases s.len(),
{
    if s.len() == 0 {
        Seq::empty()
    } else {
        outputs_encoding(s.drop_last()) + s.last().encoding()
    }
}

/// The bytes of a list of transactions, one after the other.
pub open spec fn transactions_encoding(s: Seq<Transaction>) -> Seq<u8>
    decreases s.len(),
{
    if s.len() == 0 {
        Seq::empty()
    } else {
        transactions_encoding(s.drop_last()) + s.last().encoding()
    }
}

impl Transaction {
    pub fn new(inputs: Vec<TransactionInput>, outputs: Vec<TransactionOutput>) -> (r: Transaction)
        ensures
            r.inputs == inputs,
            r.outputs == outputs,
    {
        Transaction { inputs, outputs }
    }

    /// A copy of the transaction.
    pub fn duplicate(&self) -> (r: Transaction)
        ensures
            r.inputs@ == self.inputs@,
            r.outputs@ == self.outputs@,
    {
        let mut inputs: Vec<TransactionInput> = Vec::new();
        let mut i: usize = 0;
        while i < self.inputs.len()
            invariant
                i <= self.inputs.len(),
                inputs@ == self.inputs@.take(i as int),
            decreases self.inputs.len() - i,
        {
            inputs.push(self.inputs[i]);
            assert(inputs@ =~= self.inputs@.take(i + 1));
            i = i + 1;
        }
        let mut outputs: Vec<TransactionOutput> = Vec::new();
        let mut j: usize = 0;
        while j < self.outputs.len()
            invariant
                j <= self.outputs.len(),
                outputs@ == self.outputs@.take(j as int),
            decreases self.outputs.len() - j,
        {
            outputs.push(self.outputs[j]);
            assert(outputs@ =~= self.outputs@.take(j + 1));
            j = j + 1;
        }
        assert(inputs@ =~= self.inputs@);
        assert(outputs@ =~= self.outputs@);
        Transaction { inputs, outputs }
    }

    /// The canonical bytes: the number of inputs, the inputs, the number of
    /// outputs, the outputs.
    pub open spec fn encoding(&self) -> Seq<u8> {
        len_bytes(self.inputs@.len()) + inputs_encoding(self.inputs@) + len_bytes(
            self.outputs@.len(),
        ) + outputs_encoding(self.outputs@)
    }

    pub(crate) fn encode_into(&self, out: &mut Vec<u8>)
        ensures
            final(out)@ == old(out)@ + self.encoding(),
    {
        let ghost start = out@;
        push_u64(out, self.inputs.len() as u64);
        let ghost head = out@;
        let mut i: usize = 0;
        while i < self.inputs.len()
            invariant
                i <= self.inputs.len(),
                out@ == head + inputs_encoding(self.inputs@.take(i as int)),
            decreases self.inputs.len() - i,
        {
            self.inputs[i].encode_into(out);
            proof {
                assert(self.inputs@.take(i + 1).drop_last() =~= self.inputs@.take(i as int));
                assert(out@ =~= head + inputs_encoding(self.inputs@.take(i + 1)));
            }
            i = i + 1;
        }
        assert(self.inputs@.take(i as int) =~= self.inputs@);
        push_u64(out, self.outputs.len() as u64);
        let ghost middle = out@;
        let mut j: usize = 0;
        while j < self.outputs.len()
            invariant
                j <= self.outputs.len(),
                out@ == middle + outputs_encoding(self.outputs@.take(j as int)),
            decreases self.outputs.len() - j,
        {
            self.outputs[j].encode_into(out);
            proof {
                assert(self.outputs@.take(j + 1).drop_last() =~= self.outputs@.take(j as int));
                assert(out@ =~= middle + outputs_encoding(self.outputs@.take(j + 1)));
            }
            j = j + 1;
        }
        assert(self.outputs@.take(j as int) =~= self.outputs@);
        assert(out@ =~= start + self.encoding());
    }

    /// The canonical bytes of the transaction.
    pub fn encode(&self) -> (r: Vec<u8>)
        ensures
            r@ == self.encoding(),
    {
        let mut out: Vec<u8> = Vec::new();
        self.encode_into(&mut out);
        assert(out@ =~= self.encoding());
        out
    }

    pub open spec fn spec_hash(&self) -> crate::sha256::Hash {
        crate::sha256::Hash::of(self.encoding())
    }

    /// The fingerprint of the transaction.
    pub fn hash(&self) -> (r: crate::sha256::Hash)
        ensures
            r == self.spec_hash(),
    {
        crate::sha256::Hash::hash(&self.encode())
    }
}

/// What a block states of itself. `timestamp` counts milliseconds since the
/// Unix epoch, in UTC; `target` is the threshold that was in force when the
/// block was mined.
#[derive(Clone, Copy, Debug, PartialEq, Eq, Structural)]
pub struct BlockHeader {
    pub timestamp: i64,
    pub nonce: u64,
    pub prev_block_hash: crate::sha256::Hash,
    pub merkle_root: MerkleRoot,
    pub target: U256,
}

impl BlockHeader {
    pub fn new(
        timestamp: i64,
        nonce: u64,
        prev_block_hash: crate::sha256::Hash,
        merkle_root: MerkleRoot,
        target: U256,
    ) -> (r: BlockHeader)
        ensures
            r == (BlockHeader { timestamp, nonce, prev_block_hash, merkle_root, target }),
    {
        BlockHeader { timestamp, nonce, prev_block_hash, merkle_root, target }
    }

    /// The canonical bytes: timestamp, nonce, predecessor, merkle root,
    /// target.
    pub open spec fn encoding(&self) -> Seq<u8> {
        spec_u64_to_le_bytes(self.timestamp as u64) + spec_u64_to_le_bytes(self.nonce)
            + u256_bytes(self.prev_block_hash.0) + u256_bytes(self.merkle_root.0.0) + u256_bytes(
            self.target,
        )
    }

    pub(crate) fn encode_into(&self, out: &mut Vec<u8>)
        ensures
            final(out)@ == old(out)@ + self.encoding(),
    {
        push_u64(out, self.timestamp as u64);
        push_u64(out, self.nonce);
        push_u256(out, self.prev_block_hash.0);
        push_u256(out, self.merkle_root.0.0);
        push_u256(out, self.target);
        assert(final(out)@ =~= old(out)@ + self.encoding());
    }

    pub open spec fn spec_hash(&self) -> crate::sha256::Hash {
        crate::sha256::Hash::of(self.encoding())
    }

    /// The fingerprint of the header.
    pub fn hash(&self) -> (r: crate::sha256::Hash)
        ensures
            r == self.spec_hash(),
    {
        let mut out: Vec<u8> = Vec::new();
        self.encode_into(&mut out);
        assert(out@ =~= self.encoding());
        crate::sha256::Hash::hash(&out)
    }

    /// The header with another nonce.
    pub open spec fn with_nonce(&self, nonce: u64) -> BlockHeader {
        BlockHeader { nonce, ..*self }
    }

    /// Whether the header's fingerprint is at most its own target.
    pub open spec fn solved(&self) -> bool {
        self.spec_hash().0@ <= self.target@
    }

    /// Searches for a nonce under which the header meets its target: tests
    /// the current nonce, and while it fails and steps are left, goes on to
    /// the next one (after the largest nonce comes zero). Returns whether
    /// the nonce it stopped at meets the target; on failure the nonce has
    /// advanced by `steps`, so that a further call continues the search.
    pub fn mine(&mut self, steps: usize) -> (found: bool)
        ensures
            found == final(self).solved(),
            exists|k: int| mined_in(*old(self), *final(self), found, steps as int, k),
    {
        let ghost start = *self;
        let mut k: usize = 0;
        loop
            invariant
                0 <= k <= steps,
                start == *old(self),
                *self == start.with_nonce(nonce_after(start.nonce, k as int)),
                forall|j: int|
                    0 <= j < k ==> !(#[trigger] start.with_nonce(
                        nonce_after(start.nonce, j),
                    )).solved(),
            decreases steps - k,
        {
            if self.hash().matches_target(self.target) {
                assert(mined_in(start, *self, true, steps as int, k as int));
                return true;
            }
            if k == steps {
                assert(mined_in(start, *self, false, steps as int, k as int));
                return false;
            }
            self.nonce = self.nonce.wrapping_add(1);
            k = k + 1;
        }
    }
}

/// Whether a search from `start` that tested `k + 1` nonces could end in
/// `end` with the answer `found`: every nonce before the last one failed,
/// and a failing search has used all its steps.
pub open spec fn mined_in(start: BlockHeader, end: BlockHeader, found: bool, steps: int, k: int) -> bool {
    &&& 0 <= k <= steps
    &&& end == start.with_nonce(nonce_after(start.nonce, k))
    &&& (!found ==> k == steps)
    &&& forall|j: int|
        0 <= j < k ==> !(#[trigger] start.with_nonce(nonce_after(start.nonce, j))).solved()
}

/// The nonce that is `k` steps after `nonce`, counting round from the
/// largest to zero.
pub open spec fn nonce_after(nonce: u64, k: int) -> u64 {
    ((nonce as int + k) % 0x1_0000_0000_0000_0000) as u64
}

/// A header and the transactions that it commits to.
#[derive(Debug)]
pub struct Block {
    pub header: BlockHeader,
    pub transactions: Vec<Transaction>,
}

impl Block {
    pub fn new(header: BlockHeader, transactions: Vec<Transaction>) -> (r: Block)
        ensures
            r.header == header,
            r.transactions == transactions,
    {
        Block { header, transactions }
    }

    /// The canonical bytes: the header, the number of transactions, the
    /// transactions.
    pub open spec fn encoding(&self) -> Seq<u8> {
        self.header.encoding() + len_bytes(self.transactions@.len()) + transactions_encoding(
            self.transactions@,
        )
    }

    pub open spec fn spec_hash(&self) -> crate::sha256::Hash {
        crate::sha256::Hash::of(self.encoding())
    }

    /// The fingerprint of the whole block.
    pub fn hash(&self) -> (r: crate::sha256::Hash)
        ensures
            r == self.spec_hash(),
    {
        let mut out: Vec<u8> = Vec::new();
        self.header.encode_into(&mut out);
        push_u64(&mut out, self.transactions.len() as u64);
        let ghost head = out@;
        let mut i: usize = 0;
        while i < self.transactions.len()
            invariant
                i <= self.transactions.len(),
                out@ == head + transactions_encoding(self.transactions@.take(i as int)),
            decreases self.transactions.len() - i,
        {
            self.transactions[i].encode_into(&mut out);
            proof {
                assert(self.transactions@.take(i + 1).drop_last() =~= self.transactions@.take(
                    i as int,
                ));
                assert(out@ =~= head + transactions_encoding(self.transactions@.take(i + 1)));
            }
            i = i + 1;
        }
        assert(self.transactions@.take(i as int) =~= self.transactions@);
        assert(out@ =~= self.encoding());
        crate::sha256::Hash::hash(&out)
    }
}

} // verus!
