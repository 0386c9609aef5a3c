//! The pool of pending transactions: admission, eviction of the
//! transactions that a newcomer conflicts with, the order by fee, and
//! expiry.

use crate::blockchain::Blockchain;
use crate::error::SbdError;
use crate::types::Transaction;
use crate::utxo::{with_mark, UtxoSet};
use crate::validation::{
    all_distinct, all_known, distinct, hashes_of, input_keys, keys_of, output_hashes,
    outputs_total, total_of_keys, total_of_outputs, values_total, Utxos,
};
use vstd::prelude::*;

verus! {

pub type Pool = Seq<(i64, Transaction)>;

/// The unspent outputs with the slots at the given keys marked as `flag`.
pub open spec fn mark_keys(m: Utxos, keys: Seq<crate::sha256::Hash>, flag: bool) -> Utxos
    decreases keys.len(),
{
    if keys.len() == 0 {
        m
    } else {
        with_mark(mark_keys(m, keys.drop_last(), flag), keys.last(), flag)
    }
}

/// Whether one of the transaction's outputs has the fingerprint `key`.
pub open spec fn creates(tx: Transaction, key: crate::sha256::Hash) -> bool {
    output_hashes(tx.outputs@).contains(key)
}

/// The position of the first pending transaction that creates `key`, or
/// `-1` where none does.
pub open spec fn first_creator(pool: Pool, key: crate::sha256::Hash) -> int
    decreases pool.len(),
{
    if pool.len() == 0 {
        -1
    } else {
        let before = first_creator(pool.drop_last(), key);
        if before >= 0 {
            before
        } else if creates(pool.last().1, key) {
            pool.len() - 1
        } else {
            -1
        }
    }
}

/// What a newcomer's claim on `key` does to the unspent outputs and the
/// pool: nothing where the slot is not reserved; else the first pending
/// transaction that creates `key` leaves the pool and the slots of its
/// inputs are freed, or, where there is no such transaction, the slot at
/// `key` is freed.
pub open spec fn evict_for(m: Utxos, pool: Pool, key: crate::sha256::Hash) -> (Utxos, Pool) {
    if m.contains_key(key) && m[key].0 {
        let at = first_creator(pool, key);
        if at >= 0 {
            (mark_keys(m, input_keys(pool[at].1.inputs@), false), pool.remove(at))
        } else {
            (with_mark(m, key, false), pool)
        }
    } else {
        (m, pool)
    }
}

/// What a newcomer's claims on `keys`, taken in order, do to the unspent
/// outputs and the pool.
pub open spec fn evict_all(m: Utxos, pool: Pool, keys: Seq<crate::sha256::Hash>) -> (Utxos, Pool)
    decreases keys.len(),
{
    if keys.len() == 0 {
        (m, pool)
    } else {
        let before = evict_all(m, pool, keys.drop_last());
        evict_for(before.0, before.1, keys.last())
    }
}

/// The fee that a pending transaction offers: what its inputs are worth
/// less what its outputs pay; zero where an input has no slot or the
/// outputs pay more.
pub open spec fn pending_fee(tx: Transaction, utxos: Utxos) -> nat {
    let keys = input_keys(tx.inputs@);
    if all_known(keys, utxos) && outputs_total(tx.outputs@) <= values_total(keys, utxos) {
        (values_total(keys, utxos) - outputs_total(tx.outputs@)) as nat
    } else {
        0
    }
}

/// Where an entry with the fee `fee` goes into a pool: behind the last
/// entry whose fee is not larger.
pub open spec fn slot_for(pool: Pool, fee: nat, utxos: Utxos) -> int
    decreases pool.len(),
{
    if pool.len() == 0 {
        0
    } else if pending_fee(pool.last().1, utxos) <= fee {
        pool.len() as int
    } else {
        slot_for(pool.drop_last(), fee, utxos)
    }
}

/// The pool in ascending order of fee, entries of one fee in the order in
/// which they stood.
pub open spec fn sorted_pool(pool: Pool, utxos: Utxos) -> Pool
    decreases pool.len(),
{
    if pool.len() == 0 {
        pool
    } else {
        let before = sorted_pool(pool.drop_last(), utxos);
        before.insert(slot_for(before, pending_fee(pool.last().1, utxos), utxos), pool.last())
    }
}

/// Whether a transaction may enter the pool: each input names a slot, no
/// two name the same, and the inputs are worth at least what the outputs
/// pay.
pub open spec fn admissible(tx: Transaction, utxos: Utxos) -> bool {
    let keys = input_keys(tx.inputs@);
    &&& all_known(keys, utxos)
    &&& distinct(keys)
    &&& outputs_total(tx.outputs@) <= values_total(keys, utxos)
}

/// Whether an entry that arrived at `arrival` is too old at `now`, both in
/// milliseconds.
pub open spec fn expired(arrival: i64, now: i64) -> bool {
    now - arrival > crate::MAX_MEMPOOL_TRANSACTION_AGE * 1000
}

/// The entries of the pool that are not too old at `now`, in their order.
pub open spec fn unexpired(pool: Pool, now: i64) -> Pool
    decreases pool.len(),
{
    if pool.len() == 0 {
        pool
    } else if expired(pool.last().0, now) {
        unexpired(pool.drop_last(), now)
    } else {
        unexpired(pool.drop_last(), now).push(pool.last())
    }
}

/// The keys that the entries which are too old at `now` had claimed.
pub open spec fn expired_keys(pool: Pool, now: i64) -> Seq<crate::sha256::Hash>
    decreases pool.len(),
{
    if pool.len() == 0 {
        Seq::empty()
    } else if expired(pool.last().0, now) {
        expired_keys(pool.drop_last(), now) + input_keys(pool.last().1.inputs@)
    } else {
        expired_keys(pool.drop_last(), now)
    }
}

/// Whether `after` is the ledger `before` with `transaction` admitted at
/// `now`: the pending transactions that it conflicts with have left the
/// pool, the slots of its inputs are reserved, and the pool, with the
/// newcomer, is in ascending order of fee.
pub open spec fn admitted_at(before: Blockchain, after: Blockchain, transaction: Transaction, now: i64) -> bool {
    let keys = input_keys(transaction.inputs@);
    let evicted = evict_all(before.utxos@, before.mempool@, keys);
    &&& after.utxos@ == mark_keys(evicted.0, keys, true)
    &&& after.mempool@ == sorted_pool(evicted.1.push((now, transaction)), after.utxos@)
    &&& after.blocks == before.blocks
    &&& after.target == before.target
}

/// Calls `chrono::Utc::now` and `DateTime::timestamp_millis`: the time of
/// the call in milliseconds since the Unix epoch. Nothing is claimed of it.
/// `Utc::now` stops the program where the machine's clock stands before
/// 1970; no argument decides that, so no `requires` can leave it out.
#[verifier::external_body]
fn current_time_millis() -> (r: i64) {
    chrono::Utc::now().timestamp_millis()
}

/// Marks the slots at the given keys as `flag`.
pub fn mark_all(utxos: &mut UtxoSet, keys: &Vec<crate::sha256::Hash>, flag: bool)
    ensures
        final(utxos)@ == mark_keys(old(utxos)@, keys@, flag),
{
    let mut i: usize = 0;
    while i < keys.len()
        invariant
            i <= keys.len(),
            utxos@ == mark_keys(old(utxos)@, keys@.take(i as int), flag),
        decreases keys.len() - i,
    {
        assert(keys@.take(i + 1).drop_last() =~= keys@.take(i as int));
        utxos.set_reserved(&keys[i], flag);
        i = i + 1;
    }
    assert(keys@.take(i as int) =~= keys@);
}

/// The fee that a pending transaction offers.
pub fn fee_of(tx: &Transaction, utxos: &UtxoSet) -> (r: u128)
    ensures
        r == pending_fee(*tx, utxos@),
{
    let keys = keys_of(tx);
    let paid = total_of_outputs(&tx.outputs);
    match total_of_keys(&keys, utxos) {
        None => 0,
        Some(worth) => {
            if paid <= worth {
                worth - paid
            } else {
                0
            }
        },
    }
}

/// The position of the first pending transaction that creates `key`.
pub fn find_creator(pool: &Vec<(i64, Transaction)>, key: &crate::sha256::Hash) -> (r: Option<usize>)
    ensures
        match r {
            Some(at) => first_creator(pool@, *key) == at,
            None => first_creator(pool@, *key) == -1,
        },
{
    let mut found: Option<usize> = None;
    let mut i: usize = 0;
    while i < pool.len()
        invariant
            i <= pool.len(),
            match found {
                Some(at) => first_creator(pool@.take(i as int), *key) == at,
                None => first_creator(pool@.take(i as int), *key) == -1,
            },
        decreases pool.len() - i,
    {
        assert(pool@.take(i + 1).drop_last() =~= pool@.take(i as int));
        if found.is_none() {
            let hashes = hashes_of(&pool[i].1.outputs);
            if crate::blockchain::has_hash(&hashes, key) {
                found = Some(i);
            }
        }
        i = i + 1;
    }
    assert(pool@.take(i as int) =~= pool@);
    found
}

/// The pool in ascending order of fee.
pub fn sort_pool(pool: Vec<(i64, Transaction)>, utxos: &UtxoSet) -> (r: Vec<(i64, Transaction)>)
    ensures
        r@ == sorted_pool(pool@, utxos@),
{
    let mut rest = pool;
    let mut sorted: Vec<(i64, Transaction)> = Vec::new();
    let ghost orig = rest@;
    while rest.len() > 0
        invariant
            rest@.len() <= orig.len(),
            rest@ == orig.skip(orig.len() - rest@.len()),
            sorted@ == sorted_pool(orig.take(orig.len() - rest@.len()), utxos@),
        decreases rest@.len(),
    {
        let ghost j = orig.len() - rest@.len();
        let e = rest.remove(0);
        proof {
            assert(orig.take(j + 1).drop_last() =~= orig.take(j));
            assert(orig.take(j + 1).last() == e);
            assert(rest@ =~= orig.skip(j + 1));
        }
        let fee = fee_of(&e.1, utxos);
        let mut at: usize = sorted.len();
        assert(sorted@.take(at as int) =~= sorted@);
        while at > 0 && fee_of(&sorted[at - 1].1, utxos) > fee
            invariant
                at <= sorted.len(),
                slot_for(sorted@, fee as nat, utxos@) == slot_for(
                    sorted@.take(at as int),
                    fee as nat,
                    utxos@,
                ),
            decreases at,
        {
            assert(sorted@.take(at as int).drop_last() =~= sorted@.take(at - 1));
            at = at - 1;
        }
        sorted.insert(at, e);
    }
    assert(orig.take(orig.len() as int) =~= orig);
    sorted
}

impl Blockchain {
    /// Admits a transaction that arrives at `now` (milliseconds since the
    /// Unix epoch) to the pool, or refuses it and leaves the ledger as it
    /// was. On admission the pending transactions that it conflicts with
    /// leave the pool, the slots of its inputs are reserved, and the pool is
    /// put in ascending order of fee.
    pub fn add_to_mempool_at(&mut self, transaction: Transaction, now: i64) -> (r: Result<
        (),
        SbdError,
    >)
        ensures
            r.is_ok() == admissible(transaction, old(self).utxos@),
            r.is_err() ==> r == Err::<(), SbdError>(SbdError::InvalidTransaction) && *final(self)
                == *old(self),
            r.is_ok() ==> admitted_at(*old(self), *final(self), transaction, now),
    {
        let keys = keys_of(&transaction);
        let worth = match total_of_keys(&keys, &self.utxos) {
            None => {
                return Err(SbdError::InvalidTransaction);
            },
            Some(worth) => worth,
        };
        if !all_distinct(&keys) {
            return Err(SbdError::InvalidTransaction);
        }
        if worth < total_of_outputs(&transaction.outputs) {
            return Err(SbdError::InvalidTransaction);
        }
        let mut i: usize = 0;
        while i < keys.len()
            invariant
                i <= keys.len(),
                self.blocks == old(self).blocks,
                self.target == old(self).target,
                (self.utxos@, self.mempool@) == evict_all(
                    old(self).utxos@,
                    old(self).mempool@,
                    keys@.take(i as int),
                ),
            decreases keys.len() - i,
        {
            assert(keys@.take(i + 1).drop_last() =~= keys@.take(i as int));
            let reserved = match self.utxos.get(&keys[i]) {
                Some(slot) => slot.0,
                None => false,
            };
            if reserved {
                match find_creator(&self.mempool, &keys[i]) {
                    Some(at) => {
                        assert(0 <= at < self.mempool@.len()) by {
                            lemma_first_creator_bound(self.mempool@, keys@[i as int]);
                        }
                        let freed = keys_of(&self.mempool[at].1);
                        mark_all(&mut self.utxos, &freed, false);
                        let gone = self.mempool.remove(at);
                    },
                    None => {
                        self.utxos.set_reserved(&keys[i], false);
                    },
                }
            }
            i = i + 1;
        }
        assert(keys@.take(i as int) =~= keys@);
        mark_all(&mut self.utxos, &keys, true);
        self.mempool.push((now, transaction));
        let mut pool: Vec<(i64, Transaction)> = Vec::new();
        core::mem::swap(&mut pool, &mut self.mempool);
        self.mempool = sort_pool(pool, &self.utxos);
        Ok(())
    }

    /// Admits a transaction that arrives now; see `add_to_mempool_at`, of
    /// which this is the outcome for some time of arrival.
    pub fn add_to_mempool(&mut self, transaction: Transaction) -> (r: Result<(), SbdError>)
        ensures
            r.is_ok() == admissible(transaction, old(self).utxos@),
            r.is_err() ==> r == Err::<(), SbdError>(SbdError::InvalidTransaction) && *final(self)
                == *old(self),
            r.is_ok() ==> exists|now: i64|
                admitted_at(*old(self), *final(self), transaction, now),
    {
        let now = current_time_millis();
        let r = self.add_to_mempool_at(transaction, now);
        assert(r.is_ok() ==> admitted_at(*old(self), *self, transaction, now));
        r
    }

    /// Removes the pending transactions that are too old at `now`
    /// (milliseconds since the Unix epoch) and frees the slots that they
    /// had reserved.
    pub fn cleanup_mempool_at(&mut self, now: i64)
        ensures
            final(self).mempool@ == unexpired(old(self).mempool@, now),
            final(self).utxos@ == mark_keys(
                old(self).utxos@,
                expired_keys(old(self).mempool@, now),
                false,
            ),
            final(self).blocks == old(self).blocks,
            final(self).target == old(self).target,
    {
        let mut rest: Vec<(i64, Transaction)> = Vec::new();
        core::mem::swap(&mut rest, &mut self.mempool);
        let mut kept: Vec<(i64, Transaction)> = Vec::new();
        let mut freed: Vec<crate::sha256::Hash> = Vec::new();
        let ghost orig = rest@;
        while rest.len() > 0
            invariant
                rest@.len() <= orig.len(),
                rest@ == orig.skip(orig.len() - rest@.len()),
                kept@ == unexpired(orig.take(orig.len() - rest@.len()), now),
                freed@ == expired_keys(orig.take(orig.len() - rest@.len()), now),
            decreases rest@.len(),
        {
            let ghost j = orig.len() - rest@.len();
            let e = rest.remove(0);
            proof {
                assert(orig.take(j + 1).drop_last() =~= orig.take(j));
                assert(orig.take(j + 1).last() == e);
                assert(rest@ =~= orig.skip(j + 1));
            }
            if now as i128 - e.0 as i128 > 600_000 {
                let mut keys = keys_of(&e.1);
                freed.append(&mut keys);
            } else {
                kept.push(e);
            }
        }
        assert(orig.take(orig.len() as int) =~= orig);
        self.mempool = kept;
        mark_all(&mut self.utxos, &freed, false);
    }

    /// Removes the pending transactions that are too old now; see
    /// `cleanup_mempool_at`.
    pub fn cleanup_mempool(&mut self)
        ensures
            final(self).blocks == old(self).blocks,
            final(self).target == old(self).target,
            exists|now: i64|
                final(self).mempool@ == #[trigger] unexpired(old(self).mempool@, now)
                    && final(self).utxos@ == mark_keys(
                    old(self).utxos@,
                    expired_keys(old(self).mempool@, now),
                    false,
                ),
    {
        let now = current_time_millis();
        self.cleanup_mempool_at(now);
    }
}

/// The position of a first creator lies in the pool.
pub proof fn lemma_first_creator_bound(pool: Pool, key: crate::sha256::Hash)
    ensures
        -1 <= first_creator(pool, key) < pool.len(),
        first_creator(pool, key) >= 0 ==> creates(pool[first_creator(pool, key)].1, key),
    decreases pool.len(),
{
    if pool.len() > 0 {
        lemma_first_creator_bound(pool.drop_last(), key);
    }
}

} // verus!
