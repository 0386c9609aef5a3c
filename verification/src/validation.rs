//! The rules that the transactions of a block must meet: known and
//! unrepeated inputs, valid signatures, enough value, and a coinbase that
//! pays the reward and the fees exactly.

use crate::error::SbdError;
use crate::types::{Block, Transaction, TransactionInput, TransactionOutput};
use crate::utxo::UtxoSet;
use vstd::arithmetic::power2::{lemma2_to64, lemma_pow2_strictly_increases, pow2};
use vstd::arithmetic::div_mod::lemma_basic_div;
use vstd::bits::lemma_u64_shr_is_div;
use vstd::prelude::*;

verus! {

pub type Utxos = Map<crate::sha256::Hash, (bool, TransactionOutput)>;

/// The keys that a list of inputs spends, in order.
pub open spec fn input_keys(inputs: Seq<TransactionInput>) -> Seq<crate::sha256::Hash> {
    Seq::new(inputs.len(), |i: int| inputs[i].prev_transaction_output_hash)
}

/// The fingerprints of a list of outputs, in order.
pub open spec fn output_hashes(outputs: Seq<TransactionOutput>) -> Seq<crate::sha256::Hash> {
    Seq::new(outputs.len(), |i: int| outputs[i].spec_hash())
}

/// The transactions after the first one.
pub open spec fn non_coinbase(txs: Seq<Transaction>) -> Seq<Transaction> {
    if txs.len() == 0 {
        txs
    } else {
        txs.subrange(1, txs.len() as int)
    }
}

/// The keys that the transactions spend, one transaction after the other.
pub open spec fn all_spent(txs: Seq<Transaction>) -> Seq<crate::sha256::Hash>
    decreases txs.len(),
{
    if txs.len() == 0 {
        Seq::empty()
    } else {
        all_spent(txs.drop_last()) + input_keys(txs.last().inputs@)
    }
}

/// The outputs that the transactions create, one transaction after the
/// other.
pub open spec fn all_created(txs: Seq<Transaction>) -> Seq<TransactionOutput>
    decreases txs.len(),
{
    if txs.len() == 0 {
        Seq::empty()
    } else {
        all_created(txs.drop_last()) + txs.last().outputs@
    }
}

/// No fingerprint occurs twice in the list.
pub open spec fn distinct(s: Seq<crate::sha256::Hash>) -> bool {
    forall|i: int, j: int| 0 <= i < j < s.len() ==> s[i] != s[j]
}

/// Every key of the list has a slot in the set.
pub open spec fn all_known(keys: Seq<crate::sha256::Hash>, utxos: Utxos) -> bool {
    forall|i: int| 0 <= i < keys.len() ==> utxos.contains_key(#[trigger] keys[i])
}

/// The sum of the values of the outputs at the given keys.
pub open spec fn values_total(keys: Seq<crate::sha256::Hash>, utxos: Utxos) -> nat
    decreases keys.len(),
{
    if keys.len() == 0 {
        0
    } else {
        values_total(keys.drop_last(), utxos) + utxos[keys.last()].1.value as nat
    }
}

/// The sum of the values of the outputs.
pub open spec fn outputs_total(outputs: Seq<TransactionOutput>) -> nat
    decreases outputs.len(),
{
    if outputs.len() == 0 {
        0
    } else {
        outputs_total(outputs.drop_last()) + outputs.last().value as nat
    }
}

/// Whether the fees of a block are defined: every input after the coinbase
/// spends a known output, none is spent twice in the block, no two created
/// outputs have one fingerprint, and what is spent covers what is created
/// by an amount that fits in 64 bits.
pub open spec fn fees_defined(txs: Seq<Transaction>, utxos: Utxos) -> bool {
    let keys = all_spent(non_coinbase(txs));
    let created = all_created(non_coinbase(txs));
    &&& all_known(keys, utxos)
    &&& distinct(keys)
    &&& distinct(output_hashes(created))
    &&& outputs_total(created) <= values_total(keys, utxos)
    &&& values_total(keys, utxos) - outputs_total(created) <= u64::MAX
}

/// The fees of a block: what its transactions after the coinbase spend,
/// less what they create.
pub open spec fn miner_fees(txs: Seq<Transaction>, utxos: Utxos) -> nat {
    (values_total(all_spent(non_coinbase(txs)), utxos) - outputs_total(
        all_created(non_coinbase(txs)),
    )) as nat
}

/// The reward of the block at `height`, in sub-units: the initial reward,
/// halved once for every full halving interval, rounded down.
pub open spec fn block_reward(height: u64) -> nat {
    5_000_000_000nat / pow2((height / crate::HALVING_INTERVAL) as nat)
}

/// Whether the first transaction is a coinbase that pays the reward of
/// `height` and the fees of the block, no more and no less.
pub open spec fn coinbase_valid(txs: Seq<Transaction>, height: u64, utxos: Utxos) -> bool {
    &&& txs[0].inputs@.len() == 0
    &&& txs[0].outputs@.len() > 0
    &&& fees_defined(txs, utxos)
    &&& outputs_total(txs[0].outputs@) == block_reward(height) + miner_fees(txs, utxos)
}

/// Whether every input of the transaction carries a signature of the key it
/// spends, valid under the public key of the output at that key.
pub open spec fn tx_signed(tx: Transaction, utxos: Utxos) -> bool {
    forall|i: int|
        0 <= i < tx.inputs@.len() ==> (#[trigger] tx.inputs@[i]).signature.valid_for(
            tx.inputs@[i].prev_transaction_output_hash,
            utxos[tx.inputs@[i].prev_transaction_output_hash].1.pubkey,
        )
}

/// Whether the transaction spends at least what it creates.
pub open spec fn tx_funded(tx: Transaction, utxos: Utxos) -> bool {
    outputs_total(tx.outputs@) <= values_total(input_keys(tx.inputs@), utxos)
}

/// The fault of the first transaction, from position `from` on, that has
/// one: a signature that does not verify, else too little value.
pub open spec fn first_fault(txs: Seq<Transaction>, utxos: Utxos, from: int) -> Option<SbdError>
    decreases txs.len() - from,
{
    if from < 0 || from >= txs.len() {
        None
    } else if !tx_signed(txs[from], utxos) {
        Some(SbdError::InvalidSignature)
    } else if !tx_funded(txs[from], utxos) {
        Some(SbdError::InvalidTransaction)
    } else {
        first_fault(txs, utxos, from + 1)
    }
}

/// What the check of a block's transactions answers.
pub open spec fn block_verdict(txs: Seq<Transaction>, height: u64, utxos: Utxos) -> Result<
    (),
    SbdError,
> {
    if txs.len() == 0 || !coinbase_valid(txs, height, utxos) {
        Err(SbdError::InvalidTransaction)
    } else {
        match first_fault(txs, utxos, 1) {
            Some(e) => Err(e),
            None => Ok(()),
        }
    }
}

/// The key of every input of every listed transaction is among the keys
/// that the list spends.
pub proof fn lemma_spent_has(txs: Seq<Transaction>, t: int, i: int)
    requires
        0 <= t < txs.len(),
        0 <= i < txs[t].inputs@.len(),
    ensures
        exists|k: int|
            0 <= k < all_spent(txs).len() && #[trigger] all_spent(txs)[k]
                == txs[t].inputs@[i].prev_transaction_output_hash,
    decreases txs.len(),
{
    let head = all_spent(txs.drop_last());
    if t == txs.len() - 1 {
        assert(all_spent(txs)[head.len() + i] == txs[t].inputs@[i].prev_transaction_output_hash);
    } else {
        lemma_spent_has(txs.drop_last(), t, i);
        let k = choose|k: int|
            0 <= k < head.len() && #[trigger] head[k]
                == txs[t].inputs@[i].prev_transaction_output_hash;
        assert(all_spent(txs)[k] == head[k]);
    }
}

/// The reward of the block at `height`.
pub fn reward_at(height: u64) -> (r: u64)
    ensures
        r == block_reward(height),
{
    let halvings: u64 = height / crate::HALVING_INTERVAL;
    let initial: u64 = 5_000_000_000;
    if halvings >= 64 {
        proof {
            lemma2_to64();
            if halvings > 64 {
                lemma_pow2_strictly_increases(64, halvings as nat);
            }
            assert(pow2(halvings as nat) > 5_000_000_000);
            lemma_basic_div(5_000_000_000, pow2(halvings as nat) as int);
        }
        0
    } else {
        proof {
            lemma_u64_shr_is_div(initial, halvings);
            assert(initial >> halvings == 5_000_000_000nat / pow2(halvings as nat));
        }
        initial >> halvings
    }
}

/// Whether no fingerprint occurs twice in the list.
pub fn all_distinct(v: &Vec<crate::sha256::Hash>) -> (r: bool)
    ensures
        r == distinct(v@),
{
    let mut j: usize = 0;
    while j < v.len()
        invariant
            j <= v.len(),
            forall|a: int, b: int| 0 <= a < b < j ==> v@[a] != v@[b],
        decreases v.len() - j,
    {
        let mut i: usize = 0;
        while i < j
            invariant
                i <= j < v.len(),
                forall|a: int| 0 <= a < i ==> v@[a] != v@[j as int],
            decreases j - i,
        {
            if v[i] == v[j] {
                return false;
            }
            i = i + 1;
        }
        j = j + 1;
    }
    true
}

/// The sum of the values of the outputs.
pub fn total_of_outputs(outputs: &Vec<TransactionOutput>) -> (r: u128)
    ensures
        r == outputs_total(outputs@),
{
    let mut total: u128 = 0;
    let mut i: usize = 0;
    while i < outputs.len()
        invariant
            i <= outputs.len(),
            total == outputs_total(outputs@.take(i as int)),
            total <= i * 0xFFFF_FFFF_FFFF_FFFF,
        decreases outputs.len() - i,
    {
        assert(outputs@.take(i + 1).drop_last() =~= outputs@.take(i as int));
        total = total + outputs[i].value as u128;
        i = i + 1;
    }
    assert(outputs@.take(i as int) =~= outputs@);
    total
}

/// The sum of the values of the outputs at the given keys, where every key
/// has a slot; `None` where one has none.
pub fn total_of_keys(keys: &Vec<crate::sha256::Hash>, utxos: &UtxoSet) -> (r: Option<u128>)
    ensures
        r.is_some() == all_known(keys@, utxos@),
        r.is_some() ==> r.unwrap() == values_total(keys@, utxos@),
{
    let mut total: u128 = 0;
    let mut i: usize = 0;
    while i < keys.len()
        invariant
            i <= keys.len(),
            all_known(keys@.take(i as int), utxos@),
            total == values_total(keys@.take(i as int), utxos@),
            total <= i * 0xFFFF_FFFF_FFFF_FFFF,
        decreases keys.len() - i,
    {
        assert(keys@.take(i + 1).drop_last() =~= keys@.take(i as int));
        match utxos.get(&keys[i]) {
            None => {
                assert(!utxos@.contains_key(keys@[i as int]));
                return None;
            },
            Some(slot) => {
                total = total + slot.1.value as u128;
            },
        }
        assert forall|k: int| 0 <= k < i + 1 implies utxos@.contains_key(
            #[trigger] keys@.take(i + 1)[k],
        ) by {
            if k < i {
                assert(keys@.take(i + 1)[k] == keys@.take(i as int)[k]);
            }
        }
        i = i + 1;
    }
    assert(keys@.take(i as int) =~= keys@);
    Some(total)
}

/// The keys that a transaction spends.
pub fn keys_of(tx: &Transaction) -> (r: Vec<crate::sha256::Hash>)
    ensures
        r@ == input_keys(tx.inputs@),
{
    let mut keys: Vec<crate::sha256::Hash> = Vec::new();
    let mut i: usize = 0;
    while i < tx.inputs.len()
        invariant
            i <= tx.inputs.len(),
            keys@ == input_keys(tx.inputs@).take(i as int),
        decreases tx.inputs.len() - i,
    {
        keys.push(tx.inputs[i].prev_transaction_output_hash);
        assert(keys@ =~= input_keys(tx.inputs@).take(i + 1));
        i = i + 1;
    }
    assert(keys@ =~= input_keys(tx.inputs@));
    keys
}

/// The fingerprints of the outputs, in order.
pub fn hashes_of(outputs: &Vec<TransactionOutput>) -> (r: Vec<crate::sha256::Hash>)
    ensures
        r@ == output_hashes(outputs@),
{
    let mut hashes: Vec<crate::sha256::Hash> = Vec::new();
    let mut i: usize = 0;
    while i < outputs.len()
        invariant
            i <= outputs.len(),
            hashes@ == output_hashes(outputs@).take(i as int),
        decreases outputs.len() - i,
    {
        hashes.push(outputs[i].hash());
        assert(hashes@ =~= output_hashes(outputs@).take(i + 1));
        i = i + 1;
    }
    assert(hashes@ =~= output_hashes(outputs@));
    hashes
}

impl Block {
    /// The keys that the transactions after the coinbase spend, in order.
    pub fn spent_keys(&self) -> (r: Vec<crate::sha256::Hash>)
        ensures
            r@ == all_spent(non_coinbase(self.transactions@)),
    {
        let mut keys: Vec<crate::sha256::Hash> = Vec::new();
        if self.transactions.len() == 0 {
            return keys;
        }
        let ghost rest = non_coinbase(self.transactions@);
        let mut t: usize = 1;
        while t < self.transactions.len()
            invariant
                1 <= t <= self.transactions.len(),
                rest == non_coinbase(self.transactions@),
                keys@ == all_spent(rest.take(t - 1)),
            decreases self.transactions.len() - t,
        {
            let mut more = keys_of(&self.transactions[t]);
            proof {
                assert(rest.take(t as int).drop_last() =~= rest.take(t - 1));
                assert(rest.take(t as int).last() == self.transactions@[t as int]);
            }
            keys.append(&mut more);
            t = t + 1;
        }
        assert(rest.take(t - 1) =~= rest);
        keys
    }

    /// The outputs that the transactions after the coinbase create, in
    /// order.
    pub fn created_outputs(&self) -> (r: Vec<TransactionOutput>)
        ensures
            r@ == all_created(non_coinbase(self.transactions@)),
    {
        let mut created: Vec<TransactionOutput> = Vec::new();
        if self.transactions.len() == 0 {
            return created;
        }
        let ghost rest = non_coinbase(self.transactions@);
        let mut t: usize = 1;
        while t < self.transactions.len()
            invariant
                1 <= t <= self.transactions.len(),
                rest == non_coinbase(self.transactions@),
                created@ == all_created(rest.take(t - 1)),
            decreases self.transactions.len() - t,
        {
            let tx = &self.transactions[t];
            let ghost before = created@;
            let mut i: usize = 0;
            while i < tx.outputs.len()
                invariant
                    i <= tx.outputs.len(),
                    created@ == before + tx.outputs@.take(i as int),
                decreases tx.outputs.len() - i,
            {
                created.push(tx.outputs[i]);
                assert(created@ =~= before + tx.outputs@.take(i + 1));
                i = i + 1;
            }
            proof {
                assert(tx.outputs@.take(i as int) =~= tx.outputs@);
                assert(rest.take(t as int).drop_last() =~= rest.take(t - 1));
                assert(rest.take(t as int).last() == self.transactions@[t as int]);
            }
            t = t + 1;
        }
        assert(rest.take(t - 1) =~= rest);
        created
    }

    /// The fees that the block leaves to its miner, or `InvalidTransaction`
    /// where they are not defined.
    pub fn calculate_miner_fees(&self, utxos: &UtxoSet) -> (r: Result<u64, SbdError>)
        ensures
            match r {
                Ok(fees) => fees_defined(self.transactions@, utxos@) && fees == miner_fees(
                    self.transactions@,
                    utxos@,
                ),
                Err(e) => !fees_defined(self.transactions@, utxos@) && e
                    == SbdError::InvalidTransaction,
            },
    {
        let keys = self.spent_keys();
        let created = self.created_outputs();
        let spent = match total_of_keys(&keys, utxos) {
            None => {
                return Err(SbdError::InvalidTransaction);
            },
            Some(total) => total,
        };
        if !all_distinct(&keys) {
            return Err(SbdError::InvalidTransaction);
        }
        let hashes = hashes_of(&created);
        if !all_distinct(&hashes) {
            return Err(SbdError::InvalidTransaction);
        }
        let paid = total_of_outputs(&created);
        if spent < paid || spent - paid > 0xFFFF_FFFF_FFFF_FFFFu128 {
            return Err(SbdError::InvalidTransaction);
        }
        Ok((spent - paid) as u64)
    }

    /// Checks the first transaction as the coinbase of a block at
    /// `predicted_block_height`.
    pub fn verify_coinbase_transaction(&self, predicted_block_height: u64, utxos: &UtxoSet) -> (r:
        Result<(), SbdError>)
        requires
            self.transactions@.len() > 0,
        ensures
            match r {
                Ok(_) => coinbase_valid(self.transactions@, predicted_block_height, utxos@),
                Err(e) => !coinbase_valid(self.transactions@, predicted_block_height, utxos@) && e
                    == SbdError::InvalidTransaction,
            },
    {
        let coinbase = &self.transactions[0];
        if coinbase.inputs.len() != 0 {
            return Err(SbdError::InvalidTransaction);
        }
        if coinbase.outputs.len() == 0 {
            return Err(SbdError::InvalidTransaction);
        }
        let fees = match self.calculate_miner_fees(utxos) {
            Err(_) => {
                return Err(SbdError::InvalidTransaction);
            },
            Ok(fees) => fees,
        };
        let reward = reward_at(predicted_block_height);
        let paid = total_of_outputs(&coinbase.outputs);
        if paid != reward as u128 + fees as u128 {
            return Err(SbdError::InvalidTransaction);
        }
        Ok(())
    }

    /// Checks the transactions of a block that is to stand at
    /// `predicted_block_height` against the unspent outputs.
    pub fn verify_transactions(&self, predicted_block_height: u64, utxos: &UtxoSet) -> (r: Result<
        (),
        SbdError,
    >)
        ensures
            r == block_verdict(self.transactions@, predicted_block_height, utxos@),
    {
        if self.transactions.len() == 0 {
            return Err(SbdError::InvalidTransaction);
        }
        match self.verify_coinbase_transaction(predicted_block_height, utxos) {
            Err(_) => {
                return Err(SbdError::InvalidTransaction);
            },
            Ok(_) => {},
        }
        let ghost txs = self.transactions@;
        let mut t: usize = 1;
        while t < self.transactions.len()
            invariant
                1 <= t <= self.transactions.len(),
                txs == self.transactions@,
                all_known(all_spent(non_coinbase(txs)), utxos@),
                coinbase_valid(txs, predicted_block_height, utxos@),
                first_fault(txs, utxos@, 1) == first_fault(txs, utxos@, t as int),
            decreases self.transactions.len() - t,
        {
            let tx = &self.transactions[t];
            let mut i: usize = 0;
            let mut spent: u128 = 0;
            while i < tx.inputs.len()
                invariant
                    i <= tx.inputs.len(),
                    1 <= t < txs.len(),
                    txs == self.transactions@,
                    *tx == txs[t as int],
                    all_known(all_spent(non_coinbase(txs)), utxos@),
                    coinbase_valid(txs, predicted_block_height, utxos@),
                    first_fault(txs, utxos@, 1) == first_fault(txs, utxos@, t as int),
                    spent == values_total(input_keys(tx.inputs@).take(i as int), utxos@),
                    spent <= i * 0xFFFF_FFFF_FFFF_FFFF,
                    forall|k: int|
                        0 <= k < i ==> (#[trigger] tx.inputs@[k]).signature.valid_for(
                            tx.inputs@[k].prev_transaction_output_hash,
                            utxos@[tx.inputs@[k].prev_transaction_output_hash].1.pubkey,
                        ),
                decreases tx.inputs.len() - i,
            {
                let input = tx.inputs[i];
                proof {
                    lemma_spent_has(non_coinbase(txs), t - 1, i as int);
                    assert(input_keys(tx.inputs@).take(i + 1).drop_last() =~= input_keys(
                        tx.inputs@,
                    ).take(i as int));
                }
                let slot = match utxos.get(&input.prev_transaction_output_hash) {
                    None => {
                        // The coinbase check has found a slot for every key.
                        assert(false);
                        return Err(SbdError::InvalidTransaction);
                    },
                    Some(slot) => slot,
                };
                if !input.signature.verify(&input.prev_transaction_output_hash, &slot.1.pubkey) {
                    assert(!tx_signed(txs[t as int], utxos@));
                    return Err(SbdError::InvalidSignature);
                }
                spent = spent + slot.1.value as u128;
                i = i + 1;
            }
            assert(input_keys(tx.inputs@).take(i as int) =~= input_keys(tx.inputs@));
            assert(tx_signed(txs[t as int], utxos@));
            let paid = total_of_outputs(&tx.outputs);
            if spent < paid {
                return Err(SbdError::InvalidTransaction);
            }
            t = t + 1;
        }
        Ok(())
    }
}

} // verus!
