//! The ledger: the chain of blocks, the current target, the unspent
//! outputs and the pool of pending transactions.

use crate::error::SbdError;
use crate::types::{Block, Transaction, TransactionOutput};
use crate::u256::{be_value, fourfold, U256};
use crate::utils::MerkleRoot;
use crate::utxo::UtxoSet;
use crate::validation::{block_verdict, input_keys, keys_of, Utxos};
use vstd::prelude::*;

verus! {

/// Calls `bigdecimal`: `BigDecimal::from` on the value (read by
/// `num_bigint::BigInt::from_bytes_be`) and on the two spans, its division
/// and its multiplication, then `with_scale(0)`, which drops the digits
/// after the point, and hands out the magnitude that `BigInt::to_bytes_be`
/// gives, most significant byte first. Trusted: where `elapsed / ideal` has
/// at most three digits after the point, the division is exact (it keeps
/// 100 digits unless the crate is built otherwise), the multiplication is
/// exact, and the bytes spell `value * elapsed / ideal`, rounded down. Of
/// other ratios nothing is claimed. The division panics on a zero divisor,
/// which `requires` leaves out.
#[verifier::external_body]
fn scale_by_ratio(value: &U256, elapsed: u64, ideal: u64) -> (r: Vec<u8>)
    requires
        ideal != 0,
    ensures
        (elapsed * 1000) % (ideal as int) == 0 ==> be_value(r@) == value@ * elapsed / (
        ideal as int),
{
    let bytes = [value.hi.to_be_bytes(), value.lo.to_be_bytes()].concat();
    let whole = bigdecimal::BigDecimal::from(
        num_bigint::BigInt::from_bytes_be(num_bigint::Sign::Plus, &bytes),
    );
    let ratio = bigdecimal::BigDecimal::from(elapsed) / bigdecimal::BigDecimal::from(ideal);
    (whole * ratio).with_scale(0).into_bigint_and_exponent().0.to_bytes_be().1
}

/// The unspent outputs without the slots at the given keys.
pub open spec fn without_keys(m: Utxos, keys: Seq<crate::sha256::Hash>) -> Utxos
    decreases keys.len(),
{
    if keys.len() == 0 {
        m
    } else {
        without_keys(m, keys.drop_last()).remove(keys.last())
    }
}

/// The unspent outputs after a transaction is committed: the slots that its
/// inputs name are gone, and its last output, if it has any, stands
/// unreserved at the transaction's fingerprint.
pub open spec fn apply_transaction(m: Utxos, tx: Transaction) -> Utxos {
    let spent = without_keys(m, input_keys(tx.inputs@));
    if tx.outputs@.len() == 0 {
        spent
    } else {
        spent.insert(tx.spec_hash(), (false, tx.outputs@.last()))
    }
}

/// The unspent outputs after the transactions are committed in order.
pub open spec fn apply_transactions(m: Utxos, txs: Seq<Transaction>) -> Utxos
    decreases txs.len(),
{
    if txs.len() == 0 {
        m
    } else {
        apply_transaction(apply_transactions(m, txs.drop_last()), txs.last())
    }
}

/// The unspent outputs after the blocks are committed in order.
pub open spec fn apply_blocks(m: Utxos, blocks: Seq<Block>) -> Utxos
    decreases blocks.len(),
{
    if blocks.len() == 0 {
        m
    } else {
        apply_transactions(apply_blocks(m, blocks.drop_last()), blocks.last().transactions@)
    }
}

/// The fingerprints of the transactions, in order.
pub open spec fn transaction_hashes(txs: Seq<Transaction>) -> Seq<crate::sha256::Hash> {
    Seq::new(txs.len(), |i: int| txs[i].spec_hash())
}

/// The pool without the transactions whose fingerprint is among `hashes`.
pub open spec fn pool_without(pool: Seq<(i64, Transaction)>, hashes: Seq<crate::sha256::Hash>) -> Seq<
    (i64, Transaction),
>
    decreases pool.len(),
{
    if pool.len() == 0 {
        pool
    } else if hashes.contains(pool.last().1.spec_hash()) {
        pool_without(pool.drop_last(), hashes)
    } else {
        pool_without(pool.drop_last(), hashes).push(pool.last())
    }
}

/// The whole seconds from `start` to `end`, both in milliseconds; zero
/// where `end` is not after `start`.
pub open spec fn elapsed_seconds(start: i64, end: i64) -> u64 {
    if end <= start {
        0
    } else {
        ((end - start) / 1000) as u64
    }
}

/// The target that follows `current` when the scaled target is `scaled`:
/// `scaled`, held between a quarter and four times `current`, and then at
/// most the easiest target.
pub open spec fn clamped_target(current: nat, scaled: nat) -> nat {
    let low = current / 4;
    let high = fourfold(current);
    let held = if scaled < low {
        low
    } else if scaled > high {
        high
    } else {
        scaled
    };
    if held <= U256::spec_min_target()@ {
        held
    } else {
        U256::spec_min_target()@
    }
}

/// The target scaled by the time that an interval took against the time
/// that it should take: `current * elapsed / ideal`, rounded down.
pub open spec fn scaled_target(current: nat, elapsed: u64) -> nat {
    (current * elapsed / ((crate::IDEAL_BLOCK_TIME * crate::DIFFICULTY_UPDATE_INTERVAL) as int))
        as nat
}

/// The target after a block was appended to give the chain `blocks`:
/// unchanged unless the length is a positive multiple of the update
/// interval; else adjusted by the time that the last interval took.
pub open spec fn next_target(blocks: Seq<Block>, current: U256) -> nat {
    let interval = crate::DIFFICULTY_UPDATE_INTERVAL as int;
    if blocks.len() == 0 || blocks.len() % (interval as nat) != 0 {
        current@
    } else {
        let elapsed = elapsed_seconds(
            blocks[blocks.len() - interval].header.timestamp,
            blocks.last().header.timestamp,
        );
        clamped_target(current@, scaled_target(current@, elapsed))
    }
}

/// What the ledger answers to a candidate block.
pub open spec fn block_check(blocks: Seq<Block>, utxos: Utxos, block: Block) -> Result<(), SbdError> {
    if blocks.len() == 0 {
        if block.header.prev_block_hash.0@ == 0 {
            Ok(())
        } else {
            Err(SbdError::InvalidBlock)
        }
    } else if block.header.prev_block_hash != blocks.last().spec_hash() {
        Err(SbdError::InvalidBlock)
    } else if !block.header.solved() {
        Err(SbdError::InvalidBlock)
    } else if block.transactions@.len() == 0 {
        Err(SbdError::InvalidTransaction)
    } else if MerkleRoot::of(block.transactions@) != block.header.merkle_root {
        Err(SbdError::InvalidMerkleRoot)
    } else if block.header.timestamp <= blocks.last().header.timestamp {
        Err(SbdError::InvalidBlock)
    } else {
        block_verdict(block.transactions@, blocks.len() as u64, utxos)
    }
}

/// The target that follows `current` when the scaled target has the
/// big-endian bytes `scaled`.
pub fn clamp_target(current: U256, scaled: &Vec<u8>) -> (r: U256)
    ensures
        r@ == clamped_target(current@, be_value(scaled@)),
{
    let low = current.quarter();
    let high = current.times_four_saturating();
    let held = match U256::from_big_endian(scaled) {
        None => high,
        Some(v) => {
            if v.lt(&low) {
                low
            } else if high.lt(&v) {
                high
            } else {
                v
            }
        },
    };
    let ceiling = U256::min_target();
    if held.le(&ceiling) {
        held
    } else {
        ceiling
    }
}

/// Commits a transaction to the unspent outputs.
pub fn commit_transaction(utxos: &mut UtxoSet, tx: &Transaction)
    ensures
        final(utxos)@ == apply_transaction(old(utxos)@, *tx),
{
    let keys = keys_of(tx);
    let mut i: usize = 0;
    while i < keys.len()
        invariant
            i <= keys.len(),
            utxos@ == without_keys(old(utxos)@, keys@.take(i as int)),
        decreases keys.len() - i,
    {
        assert(keys@.take(i + 1).drop_last() =~= keys@.take(i as int));
        utxos.remove(&keys[i]);
        i = i + 1;
    }
    assert(keys@.take(i as int) =~= keys@);
    if tx.outputs.len() > 0 {
        utxos.insert(tx.hash(), false, tx.outputs[tx.outputs.len() - 1]);
    }
}

/// Commits the transactions of a block, in order, to the unspent outputs.
pub fn commit_block(utxos: &mut UtxoSet, block: &Block)
    ensures
        final(utxos)@ == apply_transactions(old(utxos)@, block.transactions@),
{
    let mut t: usize = 0;
    while t < block.transactions.len()
        invariant
            t <= block.transactions.len(),
            utxos@ == apply_transactions(old(utxos)@, block.transactions@.take(t as int)),
        decreases block.transactions.len() - t,
    {
        assert(block.transactions@.take(t + 1).drop_last() =~= block.transactions@.take(t as int));
        commit_transaction(utxos, &block.transactions[t]);
        t = t + 1;
    }
    assert(block.transactions@.take(t as int) =~= block.transactions@);
}

/// Whether `h` is among the fingerprints.
pub fn has_hash(hashes: &Vec<crate::sha256::Hash>, h: &crate::sha256::Hash) -> (r: bool)
    ensures
        r == hashes@.contains(*h),
{
    let mut i: usize = 0;
    while i < hashes.len()
        invariant
            i <= hashes.len(),
            forall|k: int| 0 <= k < i ==> hashes@[k] != *h,
        decreases hashes.len() - i,
    {
        if hashes[i] == *h {
            return true;
        }
        i = i + 1;
    }
    false
}

/// The fingerprints of the transactions, in order.
pub fn hashes_of_transactions(txs: &Vec<Transaction>) -> (r: Vec<crate::sha256::Hash>)
    ensures
        r@ == transaction_hashes(txs@),
{
    let mut hashes: Vec<crate::sha256::Hash> = Vec::new();
    let mut i: usize = 0;
    while i < txs.len()
        invariant
            i <= txs.len(),
            hashes@ == transaction_hashes(txs@).take(i as int),
        decreases txs.len() - i,
    {
        hashes.push(txs[i].hash());
        assert(hashes@ =~= transaction_hashes(txs@).take(i + 1));
        i = i + 1;
    }
    assert(hashes@ =~= transaction_hashes(txs@));
    hashes
}

/// The pool without the transactions whose fingerprint is among `hashes`.
pub fn prune_pool(pool: Vec<(i64, Transaction)>, hashes: &Vec<crate::sha256::Hash>) -> (r: Vec<
    (i64, Transaction),
>)
    ensures
        r@ == pool_without(pool@, hashes@),
{
    let mut rest = pool;
    let mut kept: Vec<(i64, Transaction)> = Vec::new();
    let ghost orig = rest@;
    while rest.len() > 0
        invariant
            rest@.len() <= orig.len(),
            rest@ == orig.skip(orig.len() - rest@.len()),
            kept@ == pool_without(orig.take(orig.len() - rest@.len()), hashes@),
        decreases rest@.len(),
    {
        let ghost j = orig.len() - rest@.len();
        let e = rest.remove(0);
        let h = e.1.hash();
        proof {
            assert(orig.take(j + 1).drop_last() =~= orig.take(j));
            assert(orig.take(j + 1).last() == e);
            assert(rest@ =~= orig.skip(j + 1));
        }
        if !has_hash(hashes, &h) {
            kept.push(e);
        }
    }
    assert(orig.take(orig.len() as int) =~= orig);
    kept
}

/// The ledger.
#[derive(Debug)]
pub struct Blockchain {
    pub blocks: Vec<Block>,
    pub target: U256,
    pub utxos: UtxoSet,
    pub mempool: Vec<(i64, Transaction)>,
}

impl Blockchain {
    /// Whether the target is at most the easiest one, as it is in every
    /// ledger that `new` made and the methods changed.
    pub open spec fn wf(&self) -> bool {
        self.target@ <= U256::spec_min_target()@
    }

    /// The empty ledger, with the easiest target.
    pub fn new() -> (r: Blockchain)
        ensures
            r.blocks@.len() == 0,
            r.mempool@.len() == 0,
            r.utxos@ == Map::<crate::sha256::Hash, (bool, TransactionOutput)>::empty(),
            r.target == U256::spec_min_target(),
            r.wf(),
    {
        Blockchain {
            blocks: Vec::new(),
            target: U256::min_target(),
            utxos: UtxoSet::new(),
            mempool: Vec::new(),
        }
    }

    pub fn utxos(&self) -> (r: &UtxoSet)
        ensures
            *r == self.utxos,
    {
        &self.utxos
    }

    pub fn target(&self) -> (r: U256)
        ensures
            r == self.target,
    {
        self.target
    }

    pub fn blocks(&self) -> (r: &Vec<Block>)
        ensures
            *r == self.blocks,
    {
        &self.blocks
    }

    pub fn mempool(&self) -> (r: &Vec<(i64, Transaction)>)
        ensures
            *r == self.mempool,
    {
        &self.mempool
    }

    /// The number of blocks in the chain.
    pub fn block_height(&self) -> (r: u64)
        ensures
            r == self.blocks@.len(),
    {
        self.blocks.len() as u64
    }

    /// Rebuilds the unspent outputs from the chain: an empty set to which
    /// every block is committed in order. What the set held before, and
    /// every reservation, is gone.
    pub fn rebuild_utxos(&mut self)
        ensures
            final(self).utxos@ == apply_blocks(Map::empty(), old(self).blocks@),
            final(self).blocks == old(self).blocks,
            final(self).mempool == old(self).mempool,
            final(self).target == old(self).target,
    {
        self.utxos = UtxoSet::new();
        let mut b: usize = 0;
        while b < self.blocks.len()
            invariant
                b <= self.blocks.len(),
                self.blocks == old(self).blocks,
                self.mempool == old(self).mempool,
                self.target == old(self).target,
                self.utxos@ == apply_blocks(Map::empty(), self.blocks@.take(b as int)),
            decreases self.blocks.len() - b,
        {
            assert(self.blocks@.take(b + 1).drop_last() =~= self.blocks@.take(b as int));
            commit_block(&mut self.utxos, &self.blocks[b]);
            b = b + 1;
        }
        assert(self.blocks@.take(b as int) =~= self.blocks@);
    }

    /// Adjusts the target where the chain's length is a positive multiple
    /// of the update interval.
    pub fn try_adjust_target(&mut self)
        ensures
            final(self).target@ == next_target(old(self).blocks@, old(self).target),
            final(self).blocks == old(self).blocks,
            final(self).mempool == old(self).mempool,
            final(self).utxos == old(self).utxos,
            final(self).target@ <= U256::spec_min_target()@ || final(self).target == old(self).target,
    {
        let n = self.blocks.len();
        if n == 0 || n % 50 != 0 {
            return ;
        }
        let start = self.blocks[n - 50].header.timestamp;
        let end = self.blocks[n - 1].header.timestamp;
        let elapsed: u64 = if end <= start {
            0
        } else {
            ((end as i128 - start as i128) / 1000) as u64
        };
        let scaled = scale_by_ratio(&self.target, elapsed, 500);
        assert((elapsed * 1000) % 500 == 0);
        self.target = clamp_target(self.target, &scaled);
    }

    /// Appends a block that meets the rules of the chain, and refuses any
    /// other, leaving the ledger as it was. A first block needs nothing but
    /// the zero fingerprint as its predecessor. An accepted block's
    /// transactions leave the pool and are committed to the unspent
    /// outputs, and the target is adjusted where an interval ends.
    pub fn add_block(&mut self, block: Block) -> (r: Result<(), SbdError>)
        ensures
            r == block_check(old(self).blocks@, old(self).utxos@, block),
            r.is_err() ==> *final(self) == *old(self),
            r.is_ok() ==> {
                &&& final(self).blocks@ == old(self).blocks@.push(block)
                &&& final(self).utxos@ == apply_transactions(
                    old(self).utxos@,
                    block.transactions@,
                )
                &&& final(self).mempool@ == pool_without(
                    old(self).mempool@,
                    transaction_hashes(block.transactions@),
                )
                &&& final(self).target@ == next_target(final(self).blocks@, old(self).target)
            },
            old(self).wf() ==> final(self).wf(),
    {
        if self.blocks.len() == 0 {
            if !(block.header.prev_block_hash == crate::sha256::Hash::zero()) {
                return Err(SbdError::InvalidBlock);
            }
        } else {
            let tip = &self.blocks[self.blocks.len() - 1];
            if !(block.header.prev_block_hash == tip.hash()) {
                return Err(SbdError::InvalidBlock);
            }
            if !block.header.hash().matches_target(block.header.target) {
                return Err(SbdError::InvalidBlock);
            }
            if block.transactions.len() == 0 {
                return Err(SbdError::InvalidTransaction);
            }
            if !(MerkleRoot::calculate(&block.transactions) == block.header.merkle_root) {
                return Err(SbdError::InvalidMerkleRoot);
            }
            if block.header.timestamp <= tip.header.timestamp {
                return Err(SbdError::InvalidBlock);
            }
            match block.verify_transactions(self.block_height(), &self.utxos) {
                Err(e) => {
                    return Err(e);
                },
                Ok(_) => {},
            }
        }
        let hashes = hashes_of_transactions(&block.transactions);
        let mut pool: Vec<(i64, Transaction)> = Vec::new();
        core::mem::swap(&mut pool, &mut self.mempool);
        self.mempool = prune_pool(pool, &hashes);
        commit_block(&mut self.utxos, &block);
        self.blocks.push(block);
        self.try_adjust_target();
        Ok(())
    }
}

} // verus!
