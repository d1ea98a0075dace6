use btclib::chain::BlockChain;
use btclib::crypto::{PrivateKey, PublicKey, Signature};
use btclib::difficulty::retarget;
use btclib::error::BtcError;
use btclib::merkle::MerkleRoot;
use btclib::types::{Block, BlockHeader, Transaction, TransactionInput, TransactionOutput};
use btclib::u256::U256;
use btclib::validation::block_reward;

fn coinbase(value: u64, key: &PublicKey, id: u128) -> Transaction {
    Transaction::new(
        vec![],
        vec![TransactionOutput { value, unique_id: id, public_key: *key }],
    )
}

fn block_on(prev: btclib::hash::Hash, timestamp: i64, txs: Vec<Transaction>) -> Block {
    let root = MerkleRoot::calculate(&txs);
    let header = BlockHeader::new(timestamp, 0, prev, root, U256::minimum_target());
    Block::new(header, txs)
}

fn genesis(key: &PublicKey) -> Block {
    block_on(btclib::hash::Hash::zero(), 1_000, vec![coinbase(5_000_000_000, key, 1)])
}

fn mined(mut block: Block) -> Block {
    assert!(block.header.mine(50_000_000));
    block
}

#[test]
fn fresh_chain_is_empty() {
    let chain = BlockChain::new();
    assert_eq!(chain.block_height(), 0);
    assert_eq!(chain.target(), U256::minimum_target());
    assert!(chain.utxos().is_empty());
    assert!(chain.blocks().is_empty());
}

#[test]
fn genesis_is_accepted() {
    let key = PrivateKey::new_key().public_key();
    let mut chain = BlockChain::new();
    assert_eq!(chain.add_block(genesis(&key)), Ok(()));
    assert_eq!(chain.block_height(), 1);
    assert_eq!(chain.utxos().len(), 1);
    assert_eq!(chain.utxos()[0].1.value, 5_000_000_000);
    assert_eq!(chain.utxos()[0].0, chain.utxos()[0].1.hash());
}

#[test]
fn genesis_must_link_to_zero() {
    let key = PrivateKey::new_key().public_key();
    let mut chain = BlockChain::new();
    let other = btclib::hash::Hash::hash(b"not zero");
    let block = block_on(other, 1_000, vec![coinbase(5_000_000_000, &key, 1)]);
    assert_eq!(chain.add_block(block), Err(BtcError::InvalidBlock));
    assert_eq!(chain.block_height(), 0);
}

#[test]
fn wrong_link_is_rejected() {
    let key = PrivateKey::new_key().public_key();
    let mut chain = BlockChain::new();
    chain.add_block(genesis(&key)).unwrap();
    let before = chain.hash();
    let second = block_on(btclib::hash::Hash::zero(), 2_000, vec![coinbase(5_000_000_000, &key, 2)]);
    assert_eq!(chain.add_block(second), Err(BtcError::InvalidBlock));
    assert_eq!(chain.block_height(), 1);
    assert_eq!(chain.utxos().len(), 1);
    assert_eq!(chain.hash(), before);
}

#[test]
fn empty_block_is_rejected() {
    let mut chain = BlockChain::new();
    let header = BlockHeader::new(
        1_000,
        0,
        btclib::hash::Hash::zero(),
        MerkleRoot(btclib::hash::Hash::zero()),
        U256::minimum_target(),
    );
    assert_eq!(chain.add_block(Block::new(header, vec![])), Err(BtcError::InvalidBlock));
}

#[test]
fn wrong_merkle_root_is_rejected() {
    let key = PrivateKey::new_key().public_key();
    let mut chain = BlockChain::new();
    let mut block = genesis(&key);
    block.header.merkle_root = MerkleRoot(btclib::hash::Hash::zero());
    assert_eq!(chain.add_block(block), Err(BtcError::InvalidMerkleRoot));
}

#[test]
fn genesis_with_wrong_reward_is_rejected() {
    let key = PrivateKey::new_key().public_key();
    let mut chain = BlockChain::new();
    let block = block_on(btclib::hash::Hash::zero(), 1_000, vec![coinbase(5_000_000_001, &key, 1)]);
    assert_eq!(chain.add_block(block), Err(BtcError::InvalidTransaction));
    assert_eq!(chain.block_height(), 0);
}

#[test]
fn spending_block_is_accepted_and_utxos_follow() {
    let mut sk = PrivateKey::new_key();
    let pk = sk.public_key();
    let mut chain = BlockChain::new();
    let g = genesis(&pk);
    let g_hash = g.hash();
    chain.add_block(g).unwrap();
    let spent = chain.utxos()[0].0;
    let sig = Signature::sign_out(&spent, &mut sk);
    let spend = Transaction::new(
        vec![TransactionInput { prev_transaction_output_hash: spent, signature: sig }],
        vec![TransactionOutput { value: 4_000_000_000, unique_id: 3, public_key: pk }],
    );
    // fee: 1_000_000_000 on top of the reward
    let txs = vec![coinbase(6_000_000_000, &pk, 2), spend];
    let block = mined(block_on(g_hash, 2_000, txs));
    assert_eq!(chain.add_block(block), Ok(()));
    assert_eq!(chain.block_height(), 2);
    let values: Vec<u64> = chain.utxos().iter().map(|e| e.1.value).collect();
    assert_eq!(values, vec![6_000_000_000, 4_000_000_000]);
    assert!(chain.utxos().iter().all(|e| e.0 != spent));

    let incremental = chain.utxos().clone();
    chain.rebuild_utxos();
    assert_eq!(chain.utxos(), &incremental);
}

#[test]
fn later_block_must_be_newer() {
    let key = PrivateKey::new_key().public_key();
    let mut chain = BlockChain::new();
    let g = genesis(&key);
    let g_hash = g.hash();
    chain.add_block(g).unwrap();
    let block = mined(block_on(g_hash, 1_000, vec![coinbase(5_000_000_000, &key, 2)]));
    assert_eq!(chain.add_block(block), Err(BtcError::InvalidBlock));
    assert_eq!(chain.block_height(), 1);
}

#[test]
fn later_block_must_meet_target() {
    let key = PrivateKey::new_key().public_key();
    let mut chain = BlockChain::new();
    let g = genesis(&key);
    let g_hash = g.hash();
    chain.add_block(g).unwrap();
    let mut block = block_on(g_hash, 2_000, vec![coinbase(5_000_000_000, &key, 2)]);
    block.header.target = U256::zero();
    assert!(!block.header.hash().matches_target(&U256::zero()));
    assert_eq!(chain.add_block(block), Err(BtcError::InvalidBlock));
}

#[test]
fn retarget_downward() {
    let current = U256::minimum_target();
    let new_target = retarget(&current, 245);
    assert!(new_target.lt(&current));
    assert!(current.div_small(4).le(&new_target));
    // new_target == floor(current * 245 / 500)
    let product = current.mul_small(245);
    assert!(new_target.mul_small(500).le(&product));
    let next = U256([new_target.0[0] + 1, new_target.0[1], new_target.0[2], new_target.0[3]]);
    assert!(product.lt(&next.mul_small(500)));
}

#[test]
fn retarget_is_clamped() {
    let current = U256::minimum_target().div_small(1_000);
    assert_eq!(retarget(&current, 1), current.div_small(4));
    assert_eq!(retarget(&current, -30), current.div_small(4));
    assert_eq!(retarget(&current, 1_000_000), current.mul_small(4));
    assert_eq!(retarget(&current, 500), current);
    let max = U256::minimum_target();
    assert_eq!(retarget(&max, 1_000_000), max);
}

#[test]
fn reward_halves() {
    assert_eq!(block_reward(0), 5_000_000_000);
    assert_eq!(block_reward(209), 5_000_000_000);
    assert_eq!(block_reward(210), 2_500_000_000);
    assert_eq!(block_reward(420), 1_250_000_000);
    assert_eq!(block_reward(210 * 33), 0);
    assert_eq!(block_reward(u64::MAX), 0);
}

#[test]
fn committed_transactions_leave_the_mempool() {
    let key = PrivateKey::new_key().public_key();
    let mut chain = BlockChain::new();
    let g = genesis(&key);
    let waiting = coinbase(7, &key, 99);
    chain.add_to_mempool(g.transactions[0].clone());
    chain.add_to_mempool(waiting.clone());
    assert_eq!(chain.mempool().len(), 2);
    chain.add_block(g).unwrap();
    assert_eq!(chain.mempool().len(), 1);
    assert_eq!(chain.mempool()[0].hash(), waiting.hash());
}

#[test]
fn spent_output_cannot_be_spent_again() {
    let mut sk = PrivateKey::new_key();
    let pk = sk.public_key();
    let mut chain = BlockChain::new();
    let g = genesis(&pk);
    let g_hash = g.hash();
    chain.add_block(g).unwrap();
    let spent = chain.utxos()[0].0;
    let sig = Signature::sign_out(&spent, &mut sk);
    let input = TransactionInput { prev_transaction_output_hash: spent, signature: sig };
    let spend = Transaction::new(
        vec![input],
        vec![TransactionOutput { value: 5_000_000_000, unique_id: 3, public_key: pk }],
    );
    let b1 = mined(block_on(g_hash, 2_000, vec![coinbase(5_000_000_000, &pk, 2), spend]));
    let b1_hash = b1.hash();
    chain.add_block(b1).unwrap();
    let again = Transaction::new(
        vec![input],
        vec![TransactionOutput { value: 5_000_000_000, unique_id: 5, public_key: pk }],
    );
    let b2 = mined(block_on(b1_hash, 3_000, vec![coinbase(5_000_000_000, &pk, 4), again]));
    assert_eq!(chain.add_block(b2), Err(BtcError::InvalidTransaction));
    assert_eq!(chain.block_height(), 2);
}
