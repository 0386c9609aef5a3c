use pow_ledger::blockchain::{commit_block, commit_transaction, Blockchain};
use pow_ledger::crypto::{PublicKey, Signature};
use pow_ledger::error::SbdError;
use pow_ledger::mempool::{fee_of, find_creator, sort_pool};
use pow_ledger::types::{Block, BlockHeader, Transaction, TransactionInput, TransactionOutput};
use pow_ledger::u256::U256;
use pow_ledger::utils::MerkleRoot;
use pow_ledger::utxo::UtxoSet;

use k256::ecdsa::signature::Signer;
use k256::ecdsa::SigningKey;

fn value_of(bytes: &[u8]) -> U256 {
    U256::from_big_endian(&bytes.to_vec()).unwrap()
}

fn secret(seed: u8) -> SigningKey {
    SigningKey::from_slice(&[seed; 32]).unwrap()
}

fn public(sk: &SigningKey) -> PublicKey {
    let point = sk.verifying_key().to_encoded_point(true);
    let bytes = point.as_bytes();
    PublicKey { tag: bytes[0], x: value_of(&bytes[1..33]) }
}

fn signed(sk: &SigningKey, h: &pow_ledger::sha256::Hash) -> Signature {
    let message = [h.0.hi.to_be_bytes(), h.0.lo.to_be_bytes()].concat();
    let signature: k256::ecdsa::Signature = sk.sign(&message);
    let bytes = signature.to_bytes();
    Signature { r: value_of(&bytes[..32]), s: value_of(&bytes[32..]) }
}

fn pays(value: u64, unique_id: u128, sk: &SigningKey) -> TransactionOutput {
    TransactionOutput { value, unique_id, pubkey: public(sk) }
}

fn coinbase(value: u64, unique_id: u128) -> Transaction {
    Transaction::new(vec![], vec![pays(value, unique_id, &secret(1))])
}

fn spend(sk: &SigningKey, key: pow_ledger::sha256::Hash) -> TransactionInput {
    TransactionInput { prev_transaction_output_hash: key, signature: signed(sk, &key) }
}

fn easy() -> U256 {
    U256::new(u128::MAX, u128::MAX)
}

fn block_on(prev: pow_ledger::sha256::Hash, timestamp: i64, transactions: Vec<Transaction>) -> Block {
    let root = MerkleRoot::calculate(&transactions);
    Block::new(BlockHeader::new(timestamp, 0, prev, root, easy()), transactions)
}

fn slot(n: u128) -> pow_ledger::sha256::Hash {
    pow_ledger::sha256::Hash(U256::new(77, n))
}

fn funded(slots: &[(u128, u64)]) -> Blockchain {
    let mut chain = Blockchain::new();
    for (n, value) in slots {
        chain.utxos.insert(slot(*n), false, pays(*value, *n, &secret(2)));
    }
    chain
}

fn transfer(from: &[u128], to: &[u64], tag: u128) -> Transaction {
    let inputs = from.iter().map(|n| spend(&secret(2), slot(*n))).collect();
    let outputs = to.iter().enumerate().map(|(i, v)| pays(*v, tag * 100 + i as u128, &secret(3))).collect();
    Transaction::new(inputs, outputs)
}

fn unspent(slots: &[(u128, u64)]) -> UtxoSet {
    funded(slots).utxos
}

#[test]
fn utxo_set_maps_keys_to_slots() {
    let mut set = UtxoSet::new();
    assert_eq!(set.get(&slot(1)), None);
    assert!(!set.contains_key(&slot(1)));
    let a = pays(5, 1, &secret(2));
    let b = pays(6, 2, &secret(2));
    set.insert(slot(1), false, a);
    set.insert(slot(2), true, b);
    assert_eq!(set.get(&slot(1)), Some((false, a)));
    assert_eq!(set.get(&slot(2)), Some((true, b)));
    set.insert(slot(1), false, b);
    assert_eq!(set.get(&slot(1)), Some((false, b)));
    assert_eq!(set.entries().len(), 2);
    set.set_reserved(&slot(1), true);
    assert_eq!(set.get(&slot(1)), Some((true, b)));
    set.set_reserved(&slot(3), true);
    assert_eq!(set.get(&slot(3)), None);
    set.remove(&slot(1));
    assert_eq!(set.get(&slot(1)), None);
    assert_eq!(set.get(&slot(2)), Some((true, b)));
    set.remove(&slot(9));
    assert_eq!(set.entries().len(), 1);
}

#[test]
fn committing_a_transaction_spends_inputs_and_keeps_the_last_output() {
    let mut set = unspent(&[(1, 50), (2, 60)]);
    let tx = transfer(&[1], &[10, 20], 4);
    commit_transaction(&mut set, &tx);
    assert_eq!(set.get(&slot(1)), None);
    assert!(set.contains_key(&slot(2)));
    assert_eq!(set.get(&tx.hash()), Some((false, tx.outputs[1])));
    let burn = transfer(&[2], &[], 5);
    commit_transaction(&mut set, &burn);
    assert_eq!(set.get(&slot(2)), None);
    assert_eq!(set.get(&burn.hash()), None);
}

#[test]
fn miner_fees_are_inputs_less_outputs() {
    let set = unspent(&[(1, 50), (2, 60), (3, 70)]);
    let block = block_on(
        pow_ledger::sha256::Hash::zero(),
        1,
        vec![coinbase(1, 1), transfer(&[1], &[40], 1), transfer(&[2, 3], &[100, 5], 2)],
    );
    assert_eq!(block.calculate_miner_fees(&set), Ok(35));
    assert_eq!(block.spent_keys(), vec![slot(1), slot(2), slot(3)]);
    assert_eq!(block.created_outputs().len(), 3);
    let only_coinbase = block_on(pow_ledger::sha256::Hash::zero(), 1, vec![coinbase(1, 1)]);
    assert_eq!(only_coinbase.calculate_miner_fees(&set), Ok(0));
    let none = Block::new(
        BlockHeader::new(1, 0, pow_ledger::sha256::Hash::zero(), MerkleRoot(pow_ledger::sha256::Hash::zero()), easy()),
        vec![],
    );
    assert_eq!(none.calculate_miner_fees(&set), Ok(0));
}

#[test]
fn miner_fees_refuse_unknown_repeated_and_overpaid() {
    let set = unspent(&[(1, 50), (2, 60)]);
    let unknown = block_on(pow_ledger::sha256::Hash::zero(), 1, vec![coinbase(1, 1), transfer(&[9], &[1], 1)]);
    assert_eq!(unknown.calculate_miner_fees(&set), Err(SbdError::InvalidTransaction));
    let twice = block_on(
        pow_ledger::sha256::Hash::zero(),
        1,
        vec![coinbase(1, 1), transfer(&[1], &[1], 1), transfer(&[1], &[2], 2)],
    );
    assert_eq!(twice.calculate_miner_fees(&set), Err(SbdError::InvalidTransaction));
    let same_output = block_on(
        pow_ledger::sha256::Hash::zero(),
        1,
        vec![coinbase(1, 1), transfer(&[1], &[1], 1), transfer(&[2], &[1], 1)],
    );
    assert_eq!(same_output.calculate_miner_fees(&set), Err(SbdError::InvalidTransaction));
    let overpaid = block_on(pow_ledger::sha256::Hash::zero(), 1, vec![coinbase(1, 1), transfer(&[1], &[51], 1)]);
    assert_eq!(overpaid.calculate_miner_fees(&set), Err(SbdError::InvalidTransaction));
}

#[test]
fn coinbase_must_pay_reward_and_fees_exactly() {
    let set = unspent(&[(1, 50)]);
    let exact = block_on(pow_ledger::sha256::Hash::zero(), 1, vec![coinbase(5_000_000_010, 1), transfer(&[1], &[40], 1)]);
    assert_eq!(exact.verify_coinbase_transaction(0, &set), Ok(()));
    assert_eq!(exact.verify_transactions(0, &set), Ok(()));
    let less = block_on(pow_ledger::sha256::Hash::zero(), 1, vec![coinbase(5_000_000_009, 1), transfer(&[1], &[40], 1)]);
    assert_eq!(less.verify_coinbase_transaction(0, &set), Err(SbdError::InvalidTransaction));
    assert_eq!(less.verify_transactions(0, &set), Err(SbdError::InvalidTransaction));
    let more = block_on(pow_ledger::sha256::Hash::zero(), 1, vec![coinbase(5_000_000_011, 1), transfer(&[1], &[40], 1)]);
    assert_eq!(more.verify_coinbase_transaction(0, &set), Err(SbdError::InvalidTransaction));
    assert_eq!(exact.verify_coinbase_transaction(210, &set), Err(SbdError::InvalidTransaction));
    let halved = block_on(pow_ledger::sha256::Hash::zero(), 1, vec![coinbase(2_500_000_000, 1)]);
    assert_eq!(halved.verify_transactions(210, &set), Ok(()));
    assert_eq!(halved.verify_transactions(209, &set), Err(SbdError::InvalidTransaction));
}

#[test]
fn coinbase_must_have_no_input_and_an_output() {
    let set = unspent(&[(1, 5_000_000_000)]);
    let with_input = block_on(pow_ledger::sha256::Hash::zero(), 1, vec![transfer(&[1], &[5_000_000_000], 1)]);
    assert_eq!(with_input.verify_coinbase_transaction(0, &set), Err(SbdError::InvalidTransaction));
    let without_output = block_on(pow_ledger::sha256::Hash::zero(), 1, vec![Transaction::new(vec![], vec![])]);
    assert_eq!(
        without_output.verify_coinbase_transaction(0, &set),
        Err(SbdError::InvalidTransaction)
    );
    let two_outputs = block_on(
        pow_ledger::sha256::Hash::zero(),
        1,
        vec![Transaction::new(
            vec![],
            vec![pays(2_000_000_000, 1, &secret(1)), pays(3_000_000_000, 2, &secret(1))],
        )],
    );
    assert_eq!(two_outputs.verify_coinbase_transaction(0, &set), Ok(()));
}

#[test]
fn block_without_transactions_is_refused() {
    let set = unspent(&[]);
    let none = Block::new(
        BlockHeader::new(1, 0, pow_ledger::sha256::Hash::zero(), MerkleRoot(pow_ledger::sha256::Hash::zero()), easy()),
        vec![],
    );
    assert_eq!(none.verify_transactions(0, &set), Err(SbdError::InvalidTransaction));
}

#[test]
fn double_spend_in_one_block_is_refused() {
    let set = unspent(&[(1, 50), (2, 60)]);
    let across = block_on(
        pow_ledger::sha256::Hash::zero(),
        1,
        vec![coinbase(5_000_000_000 + 97, 1), transfer(&[1], &[1], 1), transfer(&[1], &[2], 2)],
    );
    assert_eq!(across.verify_transactions(0, &set), Err(SbdError::InvalidTransaction));
    let within = block_on(
        pow_ledger::sha256::Hash::zero(),
        1,
        vec![coinbase(5_000_000_000 + 99, 1), transfer(&[1, 1], &[1], 1)],
    );
    assert_eq!(within.verify_transactions(0, &set), Err(SbdError::InvalidTransaction));
}

#[test]
fn spending_an_unknown_output_is_refused() {
    let set = unspent(&[(1, 50)]);
    let block = block_on(pow_ledger::sha256::Hash::zero(), 1, vec![coinbase(5_000_000_000, 1), transfer(&[8], &[0], 1)]);
    assert_eq!(block.verify_transactions(0, &set), Err(SbdError::InvalidTransaction));
}

#[test]
fn bad_signature_is_refused_as_such() {
    let set = unspent(&[(1, 50), (2, 60)]);
    let forged = Transaction::new(vec![spend(&secret(8), slot(1))], vec![pays(40, 1, &secret(3))]);
    let block = block_on(pow_ledger::sha256::Hash::zero(), 1, vec![coinbase(5_000_000_010, 1), forged]);
    assert_eq!(block.verify_transactions(0, &set), Err(SbdError::InvalidSignature));
    let other_message = Transaction::new(
        vec![TransactionInput {
            prev_transaction_output_hash: slot(1),
            signature: signed(&secret(2), &slot(2)),
        }],
        vec![pays(40, 1, &secret(3))],
    );
    let block = block_on(pow_ledger::sha256::Hash::zero(), 1, vec![coinbase(5_000_000_010, 1), other_message]);
    assert_eq!(block.verify_transactions(0, &set), Err(SbdError::InvalidSignature));
}

#[test]
fn transaction_that_pays_more_than_it_spends_is_refused() {
    let set = unspent(&[(1, 50), (2, 60)]);
    let block = block_on(
        pow_ledger::sha256::Hash::zero(),
        1,
        vec![coinbase(5_000_000_000, 1), transfer(&[1], &[60], 1), transfer(&[2], &[50], 2)],
    );
    assert_eq!(block.calculate_miner_fees(&set), Ok(0));
    assert_eq!(block.verify_transactions(0, &set), Err(SbdError::InvalidTransaction));
}

#[test]
fn first_block_needs_the_zero_predecessor() {
    let mut chain = Blockchain::new();
    assert_eq!(chain.target(), U256::min_target());
    assert_eq!(chain.block_height(), 0);
    let wrong = block_on(slot(1), 1_000, vec![coinbase(5_000_000_000, 1)]);
    assert_eq!(chain.add_block(wrong), Err(SbdError::InvalidBlock));
    assert_eq!(chain.block_height(), 0);
    assert_eq!(chain.utxos().entries().len(), 0);
    let genesis = block_on(pow_ledger::sha256::Hash::zero(), 1_000, vec![coinbase(5_000_000_000, 1)]);
    assert_eq!(chain.add_block(genesis), Ok(()));
    assert_eq!(chain.block_height(), 1);
    assert_eq!(chain.blocks().len(), 1);
}

fn second_block(first: &Block, timestamp: i64) -> Block {
    let spent = first.transactions[0].hash();
    let payment = Transaction::new(
        vec![spend(&secret(1), spent)],
        vec![pays(4_000_000_000, 7, &secret(3))],
    );
    let reward = coinbase(pow_ledger::validation::reward_at(1) + 1_000_000_000, 2);
    block_on(first.hash(), timestamp, vec![reward, payment])
}

#[test]
fn chain_accepts_genesis_then_a_valid_second_block() {
    let mut chain = Blockchain::new();
    let genesis = block_on(pow_ledger::sha256::Hash::zero(), 1_000, vec![coinbase(5_000_000_000, 1)]);
    let minted = genesis.transactions[0].hash();
    let next = second_block(&genesis, 2_000);
    let reward = next.transactions[0].hash();
    let payment = next.transactions[1].hash();
    assert_eq!(chain.add_block(genesis), Ok(()));
    assert!(chain.utxos().contains_key(&minted));
    assert_eq!(chain.add_block(next), Ok(()));
    assert_eq!(chain.block_height(), 2);
    assert!(!chain.utxos().contains_key(&minted));
    assert_eq!(chain.utxos().get(&reward).map(|s| (s.0, s.1.value)), Some((false, 6_000_000_000)));
    assert_eq!(chain.utxos().get(&payment).map(|s| (s.0, s.1.value)), Some((false, 4_000_000_000)));
    assert_eq!(chain.target(), U256::min_target());
}

#[test]
fn chain_refuses_a_timestamp_that_does_not_increase() {
    let mut chain = Blockchain::new();
    let genesis = block_on(pow_ledger::sha256::Hash::zero(), 1_000, vec![coinbase(5_000_000_000, 1)]);
    let earlier = second_block(&genesis, 999);
    let same = second_block(&genesis, 1_000);
    assert_eq!(chain.add_block(genesis), Ok(()));
    assert_eq!(chain.add_block(earlier), Err(SbdError::InvalidBlock));
    assert_eq!(chain.add_block(same), Err(SbdError::InvalidBlock));
    assert_eq!(chain.block_height(), 1);
    assert_eq!(chain.utxos().entries().len(), 1);
}

#[test]
fn chain_refuses_wrong_linkage_work_and_root() {
    let mut chain = Blockchain::new();
    let genesis = block_on(pow_ledger::sha256::Hash::zero(), 1_000, vec![coinbase(5_000_000_000, 1)]);
    let tip = genesis.hash();
    assert_eq!(chain.add_block(genesis), Ok(()));
    let unlinked = block_on(pow_ledger::sha256::Hash::zero(), 2_000, vec![coinbase(5_000_000_000, 2)]);
    assert_eq!(chain.add_block(unlinked), Err(SbdError::InvalidBlock));
    let txs = vec![coinbase(5_000_000_000, 2)];
    let root = MerkleRoot::calculate(&txs);
    let unworked = Block::new(BlockHeader::new(2_000, 0, tip, root, U256::zero()), txs);
    assert_eq!(chain.add_block(unworked), Err(SbdError::InvalidBlock));
    let wrong_root = Block::new(
        BlockHeader::new(2_000, 0, tip, MerkleRoot(pow_ledger::sha256::Hash::zero()), easy()),
        vec![coinbase(5_000_000_000, 2)],
    );
    assert_eq!(chain.add_block(wrong_root), Err(SbdError::InvalidMerkleRoot));
    let empty = Block::new(
        BlockHeader::new(2_000, 0, tip, MerkleRoot(pow_ledger::sha256::Hash::zero()), easy()),
        vec![],
    );
    assert_eq!(chain.add_block(empty), Err(SbdError::InvalidTransaction));
    let overpaying = block_on(tip, 2_000, vec![coinbase(5_000_000_001, 2)]);
    assert_eq!(chain.add_block(overpaying), Err(SbdError::InvalidTransaction));
    assert_eq!(chain.block_height(), 1);
    let good = block_on(tip, 2_000, vec![coinbase(5_000_000_000, 2)]);
    assert_eq!(chain.add_block(good), Ok(()));
}

#[test]
fn chain_accepts_a_mined_block() {
    let mut chain = Blockchain::new();
    let genesis = block_on(pow_ledger::sha256::Hash::zero(), 1_000, vec![coinbase(5_000_000_000, 1)]);
    let tip = genesis.hash();
    assert_eq!(chain.add_block(genesis), Ok(()));
    let txs = vec![coinbase(5_000_000_000, 2)];
    let root = MerkleRoot::calculate(&txs);
    let target = U256::new(u128::MAX >> 5, u128::MAX);
    let mut header = BlockHeader::new(2_000, 0, tip, root, target);
    while !header.mine(50) {}
    assert_eq!(chain.add_block(Block::new(header, txs)), Ok(()));
}

#[test]
fn accepted_block_takes_its_transactions_out_of_the_pool() {
    let mut chain = Blockchain::new();
    let genesis = block_on(pow_ledger::sha256::Hash::zero(), 1_000, vec![coinbase(5_000_000_000, 1)]);
    let next = second_block(&genesis, 2_000);
    assert_eq!(chain.add_block(genesis), Ok(()));
    chain.utxos.insert(slot(5), false, pays(500, 5, &secret(2)));
    assert_eq!(chain.add_to_mempool_at(next.transactions[1].duplicate(), 10), Ok(()));
    assert_eq!(chain.add_to_mempool_at(transfer(&[5], &[400], 1), 11), Ok(()));
    assert_eq!(chain.mempool().len(), 2);
    assert_eq!(chain.add_block(next), Ok(()));
    assert_eq!(chain.mempool().len(), 1);
    assert_eq!(chain.mempool()[0].0, 11);
}

fn steady_chain(step: i64) -> Blockchain {
    let mut chain = Blockchain::new();
    let mut prev = pow_ledger::sha256::Hash::zero();
    for height in 0..50u64 {
        assert_eq!(chain.target(), U256::min_target());
        let block = block_on(
            prev,
            1_000 + step * height as i64,
            vec![coinbase(pow_ledger::validation::reward_at(height), height as u128)],
        );
        prev = block.hash();
        assert_eq!(chain.add_block(block), Ok(()));
    }
    chain
}

#[test]
fn target_is_scaled_by_the_time_an_interval_took() {
    let chain = steady_chain(10_000);
    assert_eq!(
        chain.target(),
        U256::new(0xfae147ae147ae147ae147ae147ae, 0x147ae147ae147ae147ae147ae147ae13)
    );
}

#[test]
fn target_falls_to_a_quarter_at_most() {
    let chain = steady_chain(1);
    assert_eq!(chain.target(), U256::min_target().quarter());
}

#[test]
fn target_never_exceeds_the_easiest() {
    let chain = steady_chain(100_000_000);
    assert_eq!(chain.target(), U256::min_target());
}

#[test]
fn target_is_left_alone_between_intervals() {
    let mut chain = funded(&[]);
    chain.target = U256::new(0, 1000);
    chain.try_adjust_target();
    assert_eq!(chain.target(), U256::new(0, 1000));
    let genesis = block_on(pow_ledger::sha256::Hash::zero(), 1_000, vec![coinbase(5_000_000_000, 1)]);
    assert_eq!(chain.add_block(genesis), Ok(()));
    assert_eq!(chain.target(), U256::new(0, 1000));
}

#[test]
fn rebuilding_replays_every_block() {
    let mut chain = Blockchain::new();
    let genesis = block_on(pow_ledger::sha256::Hash::zero(), 1_000, vec![coinbase(5_000_000_000, 1)]);
    let minted = genesis.transactions[0].hash();
    let next = second_block(&genesis, 2_000);
    let payment = next.transactions[1].hash();
    assert_eq!(chain.add_block(genesis), Ok(()));
    assert_eq!(chain.add_block(next), Ok(()));
    chain.utxos.insert(slot(40), true, pays(9, 40, &secret(2)));
    chain.utxos.set_reserved(&payment, true);
    chain.rebuild_utxos();
    assert!(!chain.utxos().contains_key(&slot(40)));
    assert!(!chain.utxos().contains_key(&minted));
    assert_eq!(chain.utxos().get(&payment).map(|s| s.0), Some(false));
    assert_eq!(chain.utxos().entries().len(), 2);
    chain.rebuild_utxos();
    assert!(chain.utxos().contains_key(&payment));
    assert_eq!(chain.utxos().entries().len(), 2);
    assert_eq!(chain.block_height(), 2);
    let mut copy = UtxoSet::new();
    commit_block(&mut copy, &chain.blocks()[0]);
    assert!(copy.contains_key(&minted));
}

#[test]
fn pool_admits_a_funded_transaction_and_reserves_its_inputs() {
    let mut chain = funded(&[(1, 100), (2, 50)]);
    assert_eq!(chain.add_to_mempool_at(transfer(&[1], &[90], 1), 5), Ok(()));
    assert_eq!(chain.mempool().len(), 1);
    assert_eq!(chain.mempool()[0].0, 5);
    assert_eq!(chain.utxos().get(&slot(1)).map(|s| s.0), Some(true));
    assert_eq!(chain.utxos().get(&slot(2)).map(|s| s.0), Some(false));
    assert_eq!(fee_of(&chain.mempool()[0].1, chain.utxos()), 10);
}

#[test]
fn pool_refuses_unknown_repeated_and_underfunded() {
    let mut chain = funded(&[(1, 100), (2, 50)]);
    assert_eq!(
        chain.add_to_mempool_at(transfer(&[3], &[1], 1), 5),
        Err(SbdError::InvalidTransaction)
    );
    assert_eq!(
        chain.add_to_mempool_at(transfer(&[1, 1], &[1], 1), 5),
        Err(SbdError::InvalidTransaction)
    );
    assert_eq!(
        chain.add_to_mempool_at(transfer(&[1, 2], &[151], 1), 5),
        Err(SbdError::InvalidTransaction)
    );
    assert_eq!(chain.mempool().len(), 0);
    assert_eq!(chain.utxos().get(&slot(1)).map(|s| s.0), Some(false));
    assert_eq!(chain.add_to_mempool_at(transfer(&[1, 2], &[150], 1), 5), Ok(()));
}

#[test]
fn pool_is_kept_in_ascending_order_of_fee() {
    let mut chain = funded(&[(1, 100), (2, 100), (3, 100), (4, 100)]);
    assert_eq!(chain.add_to_mempool_at(transfer(&[1], &[70], 1), 1), Ok(()));
    assert_eq!(chain.add_to_mempool_at(transfer(&[2], &[90], 2), 2), Ok(()));
    assert_eq!(chain.add_to_mempool_at(transfer(&[3], &[80], 3), 3), Ok(()));
    assert_eq!(chain.add_to_mempool_at(transfer(&[4], &[80], 4), 4), Ok(()));
    let arrivals: Vec<i64> = chain.mempool().iter().map(|e| e.0).collect();
    assert_eq!(arrivals, vec![2, 3, 4, 1]);
    let fees: Vec<u128> = chain.mempool().iter().map(|e| fee_of(&e.1, chain.utxos())).collect();
    assert_eq!(fees, vec![10, 20, 20, 30]);
    let sorted = sort_pool(vec![(9, transfer(&[1], &[0], 9)), (8, transfer(&[2], &[100], 8))], chain.utxos());
    assert_eq!(sorted[0].0, 8);
    assert_eq!(sorted[1].0, 9);
}

#[test]
fn conflicting_claim_evicts_the_pending_creator() {
    let mut chain = funded(&[(1, 100)]);
    let pending = transfer(&[1], &[60], 1);
    let disputed = pending.outputs[0].hash();
    assert_eq!(chain.add_to_mempool_at(pending, 1), Ok(()));
    chain.utxos.insert(disputed, true, pays(60, 50, &secret(2)));
    assert_eq!(find_creator(chain.mempool(), &disputed), Some(0));
    assert_eq!(find_creator(chain.mempool(), &slot(1)), None);
    let newcomer = Transaction::new(vec![spend(&secret(2), disputed)], vec![pays(55, 51, &secret(3))]);
    let newcomer_hash = newcomer.hash();
    assert_eq!(chain.add_to_mempool_at(newcomer, 2), Ok(()));
    assert_eq!(chain.mempool().len(), 1);
    assert_eq!(chain.mempool()[0].0, 2);
    assert_eq!(chain.mempool()[0].1.hash(), newcomer_hash);
    assert_eq!(chain.utxos().get(&slot(1)).map(|s| s.0), Some(false));
    assert_eq!(chain.utxos().get(&disputed).map(|s| s.0), Some(true));
}

#[test]
fn conflicting_claim_without_a_creator_takes_the_reservation() {
    let mut chain = funded(&[(1, 100), (2, 100)]);
    assert_eq!(chain.add_to_mempool_at(transfer(&[1], &[60], 1), 1), Ok(()));
    assert_eq!(chain.add_to_mempool_at(transfer(&[1, 2], &[150], 2), 2), Ok(()));
    assert_eq!(chain.mempool().len(), 2);
    assert_eq!(chain.utxos().get(&slot(1)).map(|s| s.0), Some(true));
    assert_eq!(chain.utxos().get(&slot(2)).map(|s| s.0), Some(true));
}

#[test]
fn cleanup_removes_only_what_is_too_old() {
    let mut chain = funded(&[(1, 100), (2, 100), (3, 100)]);
    assert_eq!(chain.add_to_mempool_at(transfer(&[1], &[90], 1), 0), Ok(()));
    assert_eq!(chain.add_to_mempool_at(transfer(&[2], &[80], 2), 1), Ok(()));
    assert_eq!(chain.add_to_mempool_at(transfer(&[3], &[70], 3), 500_000), Ok(()));
    chain.cleanup_mempool_at(600_000);
    assert_eq!(chain.mempool().len(), 3);
    chain.cleanup_mempool_at(600_001);
    let arrivals: Vec<i64> = chain.mempool().iter().map(|e| e.0).collect();
    assert_eq!(arrivals, vec![1, 500_000]);
    assert_eq!(chain.utxos().get(&slot(1)).map(|s| s.0), Some(false));
    assert_eq!(chain.utxos().get(&slot(2)).map(|s| s.0), Some(true));
    assert_eq!(chain.utxos().get(&slot(3)).map(|s| s.0), Some(true));
    chain.cleanup_mempool_at(i64::MAX);
    assert_eq!(chain.mempool().len(), 0);
    assert_eq!(chain.utxos().get(&slot(2)).map(|s| s.0), Some(false));
    assert_eq!(chain.utxos().get(&slot(3)).map(|s| s.0), Some(false));
    assert_eq!(chain.utxos().entries().len(), 3);
}

#[test]
fn pool_stamps_arrivals_with_the_current_time() {
    let mut chain = funded(&[(1, 100), (2, 100)]);
    assert_eq!(chain.add_to_mempool(transfer(&[1], &[90], 1)), Ok(()));
    assert_eq!(chain.add_to_mempool(transfer(&[9], &[90], 1)), Err(SbdError::InvalidTransaction));
    assert!(chain.mempool()[0].0 > 1_600_000_000_000);
    chain.cleanup_mempool();
    assert_eq!(chain.mempool().len(), 1);
    chain.mempool[0].0 = 0;
    chain.cleanup_mempool();
    assert_eq!(chain.mempool().len(), 0);
    assert_eq!(chain.utxos().get(&slot(1)).map(|s| s.0), Some(false));
}

#[test]
fn only_the_first_transaction_may_mint() {
    let set = unspent(&[(1, 50)]);
    let block = block_on(
        pow_ledger::sha256::Hash::zero(),
        1,
        vec![coinbase(5_000_000_000, 1), coinbase(5, 2)],
    );
    assert_eq!(block.calculate_miner_fees(&set), Err(SbdError::InvalidTransaction));
    assert_eq!(block.verify_transactions(0, &set), Err(SbdError::InvalidTransaction));
}

#[test]
fn committed_block_leaves_no_spent_key_and_every_new_one() {
    let mut set = unspent(&[(1, 50), (2, 60), (3, 70)]);
    let block = block_on(
        pow_ledger::sha256::Hash::zero(),
        1,
        vec![coinbase(5_000_000_035, 1), transfer(&[1], &[40], 1), transfer(&[2, 3], &[100, 5], 2)],
    );
    assert_eq!(block.verify_transactions(0, &set), Ok(()));
    commit_block(&mut set, &block);
    for n in 1..4u128 {
        assert!(!set.contains_key(&slot(n)));
    }
    for tx in block.transactions.iter() {
        assert_eq!(set.get(&tx.hash()), Some((false, tx.outputs[tx.outputs.len() - 1])));
    }
    assert_eq!(set.entries().len(), 3);
}

#[test]
fn rebuilding_an_empty_chain_leaves_no_slot() {
    let mut chain = funded(&[(1, 100)]);
    chain.utxos.set_reserved(&slot(1), true);
    chain.rebuild_utxos();
    assert_eq!(chain.utxos().entries().len(), 0);
    assert_eq!(chain.target(), U256::min_target());
}

#[test]
fn target_scaling_rounds_down() {
    let mut chain = Blockchain::new();
    let mut prev = pow_ledger::sha256::Hash::zero();
    for height in 0..50u64 {
        let block = block_on(
            prev,
            1_000 + 10_000 * height as i64,
            vec![coinbase(pow_ledger::validation::reward_at(height), height as u128)],
        );
        prev = block.hash();
        chain.blocks.push(block);
    }
    chain.target = U256::new(0, 1001);
    chain.try_adjust_target();
    assert_eq!(chain.target(), U256::new(0, 980));
    chain.target = U256::new(0, 7);
    chain.try_adjust_target();
    assert_eq!(chain.target(), U256::new(0, 6));
}
