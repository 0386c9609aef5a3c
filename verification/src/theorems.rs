//! What holds of the ledger's rules, proved from their definitions.

use crate::blockchain::{
    apply_blocks, apply_transactions, block_check, clamped_target, next_target, without_keys,
};
use crate::error::SbdError;
use crate::blockchain::Blockchain;
use crate::mempool::{
    admissible, admitted_at, evict_all, evict_for, expired, first_creator, mark_keys, pending_fee,
    slot_for, sorted_pool, unexpired, Pool,
};
use crate::types::{Block, Transaction};
use crate::u256::U256;
use crate::validation::{
    all_known, all_spent, block_reward, block_verdict, distinct, fees_defined, input_keys,
    lemma_spent_has, miner_fees, non_coinbase, outputs_total, Utxos,
};
use vstd::arithmetic::div_mod::lemma_div_denominator;
use vstd::arithmetic::power2::{lemma_pow2_pos, lemma_pow2_unfold, pow2};
use vstd::prelude::*;

verus! {

/// A block in which a transaction after the coinbase spends a key that has
/// no slot among the unspent outputs is refused as an invalid transaction.
pub proof fn lemma_unknown_input_refused(
    txs: Seq<Transaction>,
    height: u64,
    utxos: Utxos,
    t: int,
    i: int,
)
    requires
        1 <= t < txs.len(),
        0 <= i < txs[t].inputs@.len(),
        !utxos.contains_key(txs[t].inputs@[i].prev_transaction_output_hash),
    ensures
        block_verdict(txs, height, utxos) == Err::<(), SbdError>(SbdError::InvalidTransaction),
{
    lemma_spent_has(non_coinbase(txs), t - 1, i);
}

/// The keys that the first `t` transactions spend are the first keys that
/// the whole list spends.
pub proof fn lemma_spent_prefix(txs: Seq<Transaction>, t: int)
    requires
        0 <= t <= txs.len(),
    ensures
        all_spent(txs.take(t)).len() <= all_spent(txs).len(),
        forall|k: int|
            0 <= k < all_spent(txs.take(t)).len() ==> all_spent(txs)[k] == all_spent(
                txs.take(t),
            )[k],
    decreases txs.len(),
{
    if t == txs.len() {
        assert(txs.take(t) =~= txs);
    } else {
        lemma_spent_prefix(txs.drop_last(), t);
        assert(txs.drop_last().take(t) =~= txs.take(t));
    }
}

/// A block in which two inputs of transactions after the coinbase, at
/// different places, spend the same key is refused as an invalid
/// transaction.
pub proof fn lemma_double_spend_refused(
    txs: Seq<Transaction>,
    height: u64,
    utxos: Utxos,
    t1: int,
    i1: int,
    t2: int,
    i2: int,
)
    requires
        1 <= t1 <= t2 < txs.len(),
        0 <= i1 < txs[t1].inputs@.len(),
        0 <= i2 < txs[t2].inputs@.len(),
        t1 < t2 || i1 < i2,
        txs[t1].inputs@[i1].prev_transaction_output_hash
            == txs[t2].inputs@[i2].prev_transaction_output_hash,
    ensures
        block_verdict(txs, height, utxos) == Err::<(), SbdError>(SbdError::InvalidTransaction),
{
    let rest = non_coinbase(txs);
    let a = t1 - 1;
    let b = t2 - 1;
    let upto_a = rest.take(a + 1);
    let upto_b = rest.take(b + 1);
    lemma_spent_prefix(rest, a + 1);
    lemma_spent_prefix(rest, b + 1);
    assert(upto_a.drop_last() =~= rest.take(a));
    assert(upto_b.drop_last() =~= rest.take(b));
    let base_a = all_spent(rest.take(a)).len() as int;
    let base_b = all_spent(rest.take(b)).len() as int;
    let ka = base_a + i1;
    let kb = base_b + i2;
    assert(all_spent(upto_a)[ka] == txs[t1].inputs@[i1].prev_transaction_output_hash);
    assert(all_spent(upto_b)[kb] == txs[t2].inputs@[i2].prev_transaction_output_hash);
    if t1 < t2 {
        lemma_spent_prefix(rest.take(b), a + 1);
        assert(rest.take(b).take(a + 1) =~= upto_a);
    }
    assert(ka < kb);
    assert(all_spent(rest)[ka] == all_spent(rest)[kb]);
    assert(!distinct(all_spent(rest)));
}

/// The reward halves with every halving interval, rounded down.
pub proof fn lemma_reward_halves(height: u64)
    requires
        height + crate::HALVING_INTERVAL <= u64::MAX,
    ensures
        block_reward((height + crate::HALVING_INTERVAL) as u64) == block_reward(height) / 2,
        block_reward(0) == crate::INITIAL_REWARD * crate::UNITS_PER_COIN,
{
    let e = (height / crate::HALVING_INTERVAL) as nat;
    assert(((height + crate::HALVING_INTERVAL) as u64) / crate::HALVING_INTERVAL == e + 1);
    lemma_pow2_unfold(e + 1);
    lemma_pow2_pos(e);
    lemma_div_denominator(5_000_000_000, pow2(e) as int, 2);
    assert(pow2(e) * 2 == 2 * pow2(e));
    assert(pow2(0) == 1) by {
        vstd::arithmetic::power2::lemma2_to64();
    }
    assert((0u64 / crate::HALVING_INTERVAL) as nat == 0);
    assert(5_000_000_000nat / 1 == 5_000_000_000);
    assert(crate::INITIAL_REWARD * crate::UNITS_PER_COIN == 5_000_000_000);
}

/// A key among those removed has no slot afterwards; any other key keeps
/// its slot or its lack of one.
pub proof fn lemma_without_keys(m: Utxos, keys: Seq<crate::sha256::Hash>, k: crate::sha256::Hash)
    ensures
        keys.contains(k) ==> !without_keys(m, keys).contains_key(k),
        !keys.contains(k) ==> (without_keys(m, keys).contains_key(k) == m.contains_key(k)),
        !m.contains_key(k) ==> !without_keys(m, keys).contains_key(k),
        !keys.contains(k) && m.contains_key(k) ==> without_keys(m, keys)[k] == m[k],
    decreases keys.len(),
{
    if keys.len() > 0 {
        lemma_without_keys(m, keys.drop_last(), k);
        if keys.contains(k) && keys.last() != k {
            let i = choose|i: int| 0 <= i < keys.len() && keys[i] == k;
            assert(keys.drop_last()[i] == k);
        }
        if !keys.contains(k) {
            assert forall|i: int| 0 <= i < keys.drop_last().len() implies keys.drop_last()[i]
                != k by {
                assert(keys[i] == keys.drop_last()[i]);
            }
        }
    }
}

/// After the listed transactions are committed, the key that one of them
/// spent has no slot, unless that transaction or a later one has that key
/// as its fingerprint and an output.
pub proof fn lemma_spent_slot(m: Utxos, txs: Seq<Transaction>, t: int, i: int)
    requires
        0 <= t < txs.len(),
        0 <= i < txs[t].inputs@.len(),
        forall|u: int|
            t <= u < txs.len() && (#[trigger] txs[u]).outputs@.len() > 0 ==> txs[u].spec_hash()
                != txs[t].inputs@[i].prev_transaction_output_hash,
    ensures
        !apply_transactions(m, txs).contains_key(txs[t].inputs@[i].prev_transaction_output_hash),
    decreases txs.len(),
{
    let k = txs[t].inputs@[i].prev_transaction_output_hash;
    let head = txs.drop_last();
    let last = txs.last();
    let before = apply_transactions(m, head);
    let keys = input_keys(last.inputs@);
    lemma_without_keys(before, keys, k);
    assert(txs[txs.len() - 1] == last);
    if t < txs.len() - 1 {
        assert(head[t] == txs[t]);
        assert forall|u: int| t <= u < head.len() && (#[trigger] head[u]).outputs@.len()
            > 0 implies head[u].spec_hash() != k by {
            assert(head[u] == txs[u]);
        }
        lemma_spent_slot(m, head, t, i);
    } else {
        assert(keys[i] == k);
    }
}

/// After the listed transactions are committed, the fingerprint of one
/// that has an output has a slot, unreserved, that holds its last output,
/// unless a later one spends that fingerprint, or has that fingerprint and
/// another last output.
pub proof fn lemma_created_slot(m: Utxos, txs: Seq<Transaction>, v: int)
    requires
        0 <= v < txs.len(),
        txs[v].outputs@.len() > 0,
        forall|u: int|
            v < u < txs.len() ==> {
                &&& !input_keys((#[trigger] txs[u]).inputs@).contains(txs[v].spec_hash())
                &&& txs[u].spec_hash() == txs[v].spec_hash() && txs[u].outputs@.len() > 0
                    ==> txs[u].outputs@.last() == txs[v].outputs@.last()
            },
    ensures
        apply_transactions(m, txs).contains_key(txs[v].spec_hash()),
        apply_transactions(m, txs)[txs[v].spec_hash()] == (false, txs[v].outputs@.last()),
    decreases txs.len(),
{
    let h = txs[v].spec_hash();
    let head = txs.drop_last();
    let last = txs.last();
    let before = apply_transactions(m, head);
    let keys = input_keys(last.inputs@);
    lemma_without_keys(before, keys, h);
    assert(txs[txs.len() - 1] == last);
    if v < txs.len() - 1 {
        assert(head[v] == txs[v]);
        assert forall|u: int| v < u < head.len() implies {
            &&& !input_keys((#[trigger] head[u]).inputs@).contains(h)
            &&& head[u].spec_hash() == h && head[u].outputs@.len() > 0 ==> head[u].outputs@.last()
                == txs[v].outputs@.last()
        } by {
            assert(head[u] == txs[u]);
        }
        lemma_created_slot(m, head, v);
    }
}

/// Marking keys gives a slot to no key and takes none away; it sets the
/// mark of each key that is marked, and leaves every other slot as it was.
pub proof fn lemma_mark_keys(
    m: Utxos,
    keys: Seq<crate::sha256::Hash>,
    flag: bool,
    k: crate::sha256::Hash,
)
    ensures
        mark_keys(m, keys, flag).contains_key(k) == m.contains_key(k),
        m.contains_key(k) ==> mark_keys(m, keys, flag)[k].1 == m[k].1,
        m.contains_key(k) && keys.contains(k) ==> mark_keys(m, keys, flag)[k].0 == flag,
        m.contains_key(k) && !keys.contains(k) ==> mark_keys(m, keys, flag)[k] == m[k],
    decreases keys.len(),
{
    if keys.len() > 0 {
        lemma_mark_keys(m, keys.drop_last(), flag, k);
        lemma_mark_keys(m, keys.drop_last(), flag, keys.last());
        if keys.contains(k) && keys.last() != k {
            let i = choose|i: int| 0 <= i < keys.len() && keys[i] == k;
            assert(keys.drop_last()[i] == k);
        }
        if !keys.contains(k) {
            assert forall|i: int| 0 <= i < keys.drop_last().len() implies keys.drop_last()[i]
                != k by {
                assert(keys[i] == keys.drop_last()[i]);
            }
        }
    }
}

/// A newcomer's claim on a reserved key that a pending transaction creates
/// puts that transaction out of the pool and frees every slot that it had
/// reserved; the slots that it had not claimed stay as they were.
pub proof fn lemma_conflict_evicts(m: Utxos, pool: Pool, key: crate::sha256::Hash, k: crate::sha256::Hash)
    requires
        m.contains_key(key),
        m[key].0,
        first_creator(pool, key) >= 0,
        m.contains_key(k),
    ensures
        first_creator(pool, key) < pool.len(),
        evict_for(m, pool, key).1 == pool.remove(first_creator(pool, key)),
        evict_for(m, pool, key).0.contains_key(k),
        input_keys(pool[first_creator(pool, key)].1.inputs@).contains(k) ==> !evict_for(
            m,
            pool,
            key,
        ).0[k].0,
        !input_keys(pool[first_creator(pool, key)].1.inputs@).contains(k) ==> evict_for(
            m,
            pool,
            key,
        ).0[k] == m[k],
{
    crate::mempool::lemma_first_creator_bound(pool, key);
    lemma_mark_keys(m, input_keys(pool[first_creator(pool, key)].1.inputs@), false, k);
}

/// The entries that stay in the pool at `now` are those that are not too
/// old, each as often as it stood there.
pub proof fn lemma_unexpired(pool: Pool, now: i64, e: (i64, Transaction))
    ensures
        unexpired(pool, now).contains(e) == (pool.contains(e) && !expired(e.0, now)),
    decreases pool.len(),
{
    if pool.len() > 0 {
        let head = pool.drop_last();
        lemma_unexpired(head, now, e);
        let kept = unexpired(head, now);
        if pool.contains(e) && pool.last() != e {
            let i = choose|i: int| 0 <= i < pool.len() && pool[i] == e;
            assert(head[i] == e);
        }
        if head.contains(e) {
            let i = choose|i: int| 0 <= i < head.len() && head[i] == e;
            assert(pool[i] == e);
        }
        if !expired(pool.last().0, now) {
            let next = kept.push(pool.last());
            assert(next.last() == pool.last());
            if kept.contains(e) {
                let i = choose|i: int| 0 <= i < kept.len() && kept[i] == e;
                assert(next[i] == e);
            }
            if next.contains(e) && pool.last() != e {
                let i = choose|i: int| 0 <= i < next.len() && next[i] == e;
                assert(kept[i] == e);
            }
        }
        assert(pool[pool.len() - 1] == pool.last());
    }
}

/// The target changes only where the chain's length is a positive multiple
/// of the update interval; a target that was at most the easiest one is
/// followed by one between a quarter and four times itself that is again at
/// most the easiest one.
pub proof fn lemma_next_target_bounds(blocks: Seq<Block>, current: U256)
    requires
        current@ <= U256::spec_min_target()@,
    ensures
        blocks.len() == 0 || blocks.len() % (crate::DIFFICULTY_UPDATE_INTERVAL as nat) != 0
            ==> next_target(blocks, current) == current@,
        current@ / 4 <= next_target(blocks, current) <= current@ * 4,
        next_target(blocks, current) <= U256::spec_min_target()@,
{
}

/// The adjusted target lies between a quarter and four times the current
/// one and is at most the easiest one, whatever the scaled target is.
pub proof fn lemma_clamped_target_bounds(current: U256, scaled: nat)
    requires
        current@ <= U256::spec_min_target()@,
    ensures
        current@ / 4 <= clamped_target(current@, scaled) <= current@ * 4,
        clamped_target(current@, scaled) <= U256::spec_min_target()@,
{
}

/// Whether the fees of the pool's entries never fall from one entry to a
/// later one.
pub open spec fn ascending(pool: Pool, utxos: Utxos) -> bool {
    forall|i: int, j: int|
        0 <= i < j < pool.len() ==> pending_fee(pool[i].1, utxos) <= pending_fee(pool[j].1, utxos)
}

/// In a pool in ascending order, the place for a fee has before it the
/// entries whose fee is not larger and behind it those whose fee is.
pub proof fn lemma_slot_for(pool: Pool, fee: nat, utxos: Utxos)
    requires
        ascending(pool, utxos),
    ensures
        0 <= slot_for(pool, fee, utxos) <= pool.len(),
        forall|i: int|
            0 <= i < slot_for(pool, fee, utxos) ==> pending_fee(#[trigger] pool[i].1, utxos) <= fee,
        forall|i: int|
            slot_for(pool, fee, utxos) <= i < pool.len() ==> pending_fee(
                #[trigger] pool[i].1,
                utxos,
            ) > fee,
    decreases pool.len(),
{
    if pool.len() > 0 {
        let head = pool.drop_last();
        assert forall|i: int, j: int| 0 <= i < j < head.len() implies pending_fee(
            head[i].1,
            utxos,
        ) <= pending_fee(head[j].1, utxos) by {
            assert(head[i] == pool[i] && head[j] == pool[j]);
        }
        lemma_slot_for(head, fee, utxos);
        if pending_fee(pool.last().1, utxos) <= fee {
            assert forall|i: int| 0 <= i < pool.len() implies pending_fee(
                #[trigger] pool[i].1,
                utxos,
            ) <= fee by {
                if i < pool.len() - 1 {
                    assert(pending_fee(pool[i].1, utxos) <= pending_fee(
                        pool[pool.len() - 1].1,
                        utxos,
                    ));
                }
            }
        } else {
            assert forall|i: int| slot_for(pool, fee, utxos) <= i < pool.len() implies pending_fee(
                #[trigger] pool[i].1,
                utxos,
            ) > fee by {
                if i < pool.len() - 1 {
                    assert(head[i] == pool[i]);
                }
            }
            assert forall|i: int| 0 <= i < slot_for(pool, fee, utxos) implies pending_fee(
                #[trigger] pool[i].1,
                utxos,
            ) <= fee by {
                assert(head[i] == pool[i]);
            }
        }
    }
}

/// The pool in order of fee has as many entries as the pool, and their
/// fees never fall from one entry to a later one.
pub proof fn lemma_sorted_pool_ascending(pool: Pool, utxos: Utxos)
    ensures
        sorted_pool(pool, utxos).len() == pool.len(),
        ascending(sorted_pool(pool, utxos), utxos),
    decreases pool.len(),
{
    if pool.len() > 0 {
        let before = sorted_pool(pool.drop_last(), utxos);
        let e = pool.last();
        let fee = pending_fee(e.1, utxos);
        lemma_sorted_pool_ascending(pool.drop_last(), utxos);
        lemma_slot_for(before, fee, utxos);
        let p = slot_for(before, fee, utxos);
        let after = before.insert(p, e);
        assert(after == sorted_pool(pool, utxos));
        assert forall|i: int, j: int| 0 <= i < j < after.len() implies pending_fee(
            after[i].1,
            utxos,
        ) <= pending_fee(after[j].1, utxos) by {
            if i < p {
                assert(after[i] == before[i]);
            } else if i > p {
                assert(after[i] == before[i - 1]);
            }
            if j < p {
                assert(after[j] == before[j]);
            } else if j > p {
                assert(after[j] == before[j - 1]);
            }
        }
    }
}

/// A block whose transactions pass the check has defined fees, and its
/// coinbase pays the reward of its height and those fees, no more and no
/// less; a coinbase that pays any other amount has the block refused as an
/// invalid transaction.
pub proof fn lemma_coinbase_exact(txs: Seq<Transaction>, height: u64, utxos: Utxos)
    requires
        txs.len() > 0,
    ensures
        block_verdict(txs, height, utxos).is_ok() ==> fees_defined(txs, utxos) && outputs_total(
            txs[0].outputs@,
        ) == block_reward(height) + miner_fees(txs, utxos),
        !fees_defined(txs, utxos) || outputs_total(txs[0].outputs@) != block_reward(height)
            + miner_fees(txs, utxos) ==> block_verdict(txs, height, utxos) == Err::<(), SbdError>(
            SbdError::InvalidTransaction,
        ),
{
}

/// Replaying a chain with one more block is replaying the chain and then
/// committing the block's transactions: the unspent outputs of a ledger
/// that were the replay of its chain are so again after a block is added.
pub proof fn lemma_replay_extends(m: Utxos, blocks: Seq<Block>, block: Block)
    ensures
        apply_blocks(m, blocks.push(block)) == apply_transactions(
            apply_blocks(m, blocks),
            block.transactions@,
        ),
{
    assert(blocks.push(block).drop_last() =~= blocks);
}

/// A block that does not name the tip of a chain as its predecessor, or
/// whose timestamp is not after the tip's, is refused by a chain that has a
/// block, whatever else it holds.
pub proof fn lemma_linkage_and_time(blocks: Seq<Block>, utxos: Utxos, block: Block)
    requires
        blocks.len() > 0,
        block.header.prev_block_hash != blocks.last().spec_hash() || block.header.timestamp
            <= blocks.last().header.timestamp,
    ensures
        block_check(blocks, utxos, block).is_err(),
{
    if block_verdict(block.transactions@, blocks.len() as u64, utxos).is_ok() {
    }
}

/// The pool in order of fee holds the entries of the pool, each as often
/// as the pool does.
pub proof fn lemma_sorted_pool_permutes(pool: Pool, utxos: Utxos)
    ensures
        sorted_pool(pool, utxos).to_multiset() == pool.to_multiset(),
    decreases pool.len(),
{
    if pool.len() > 0 {
        let head = pool.drop_last();
        let e = pool.last();
        let before = sorted_pool(head, utxos);
        lemma_sorted_pool_permutes(head, utxos);
        lemma_sorted_pool_ascending(head, utxos);
        lemma_slot_for(before, pending_fee(e.1, utxos), utxos);
        let p = slot_for(before, pending_fee(e.1, utxos), utxos);
        let after = before.insert(p, e);
        assert(after.remove(p) =~= before);
        assert(after[p] == e);
        vstd::seq_lib::to_multiset_remove(after, p);
        vstd::seq_lib::to_multiset_build(head, e);
        assert(head.push(e) =~= pool);
        after.to_multiset_ensures();
        assert(after.contains(e));
        assert(after.to_multiset() =~= before.to_multiset().insert(e));
    }
}

/// The claims of a newcomer give a slot to no key and take none away, and
/// change no output.
pub proof fn lemma_evict_keeps_slots(
    m: Utxos,
    pool: Pool,
    keys: Seq<crate::sha256::Hash>,
    k: crate::sha256::Hash,
)
    ensures
        evict_all(m, pool, keys).0.contains_key(k) == m.contains_key(k),
        m.contains_key(k) ==> evict_all(m, pool, keys).0[k].1 == m[k].1,
    decreases keys.len(),
{
    if keys.len() > 0 {
        lemma_evict_keeps_slots(m, pool, keys.drop_last(), k);
        let before = evict_all(m, pool, keys.drop_last());
        let key = keys.last();
        if before.0.contains_key(key) && before.0[key].0 {
            let at = first_creator(before.1, key);
            if at >= 0 {
                crate::mempool::lemma_first_creator_bound(before.1, key);
                lemma_mark_keys(before.0, input_keys(before.1[at].1.inputs@), false, k);
            }
        }
    }
}

/// After a transaction is admitted, the slot of each of its inputs is
/// reserved and holds the output that it held, and the transaction stands
/// in the pool with its time of arrival.
pub proof fn lemma_admitted(
    before: Blockchain,
    after: Blockchain,
    transaction: Transaction,
    now: i64,
    i: int,
)
    requires
        admissible(transaction, before.utxos@),
        admitted_at(before, after, transaction, now),
        0 <= i < transaction.inputs@.len(),
    ensures
        after.utxos@.contains_key(transaction.inputs@[i].prev_transaction_output_hash),
        after.utxos@[transaction.inputs@[i].prev_transaction_output_hash] == (
            true,
            before.utxos@[transaction.inputs@[i].prev_transaction_output_hash].1,
        ),
        after.mempool@.contains((now, transaction)),
{
    let keys = input_keys(transaction.inputs@);
    let k = transaction.inputs@[i].prev_transaction_output_hash;
    assert(keys[i] == k);
    let evicted = evict_all(before.utxos@, before.mempool@, keys);
    lemma_evict_keeps_slots(before.utxos@, before.mempool@, keys, k);
    lemma_mark_keys(evicted.0, keys, true, k);
    let pool = evicted.1.push((now, transaction));
    lemma_sorted_pool_permutes(pool, after.utxos@);
    assert(pool[pool.len() - 1] == (now, transaction));
    assert(pool.contains((now, transaction)));
    let sorted = sorted_pool(pool, after.utxos@);
    pool.to_multiset_ensures();
    sorted.to_multiset_ensures();
    assert(pool.to_multiset().count((now, transaction)) > 0);
    assert(sorted.to_multiset().count((now, transaction)) > 0);
    assert(sorted.contains((now, transaction)));
}

/// After the transactions of a block that passes the check are committed,
/// the fingerprint of each of them that has an output and was no key of the
/// unspent outputs before has a slot, unreserved, that holds its last
/// output, unless a later one has that fingerprint and another last output.
pub proof fn lemma_accepted_output(txs: Seq<Transaction>, height: u64, utxos: Utxos, v: int)
    requires
        block_verdict(txs, height, utxos).is_ok(),
        0 <= v < txs.len(),
        txs[v].outputs@.len() > 0,
        !utxos.contains_key(txs[v].spec_hash()),
        forall|u: int|
            v < u < txs.len() && (#[trigger] txs[u]).spec_hash() == txs[v].spec_hash()
                && txs[u].outputs@.len() > 0 ==> txs[u].outputs@.last() == txs[v].outputs@.last(),
    ensures
        apply_transactions(utxos, txs).contains_key(txs[v].spec_hash()),
        apply_transactions(utxos, txs)[txs[v].spec_hash()] == (false, txs[v].outputs@.last()),
{
    let h = txs[v].spec_hash();
    let rest = non_coinbase(txs);
    assert(all_known(all_spent(rest), utxos));
    assert forall|u: int| v < u < txs.len() implies !input_keys(
        (#[trigger] txs[u]).inputs@,
    ).contains(h) by {
        let keys = input_keys(txs[u].inputs@);
        if keys.contains(h) {
            let j = choose|j: int| 0 <= j < keys.len() && keys[j] == h;
            assert(rest[u - 1] == txs[u]);
            lemma_spent_has(rest, u - 1, j);
        }
    }
    lemma_created_slot(utxos, txs, v);
}

/// A pool of one entry is in order as it stands.
pub proof fn lemma_sorted_pool_single(e: (i64, Transaction), utxos: Utxos)
    ensures
        sorted_pool(seq![e], utxos) == seq![e],
{
    let pool = seq![e];
    assert(pool.drop_last() =~= Seq::<(i64, Transaction)>::empty());
    assert(sorted_pool(pool.drop_last(), utxos) =~= Seq::<(i64, Transaction)>::empty());
    assert(pool.last() == e);
    assert(Seq::<(i64, Transaction)>::empty().insert(0, e) =~= pool);
}

} // verus!
