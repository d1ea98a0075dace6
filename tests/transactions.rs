use btclib::crypto::{PrivateKey, Signature};
use btclib::error::BtcError;
use btclib::merkle::MerkleRoot;
use btclib::types::{Block, BlockHeader, Transaction, TransactionInput, TransactionOutput};
use btclib::u256::U256;

struct Setup {
    owner: PrivateKey,
    utxos: Vec<(btclib::hash::Hash, TransactionOutput)>,
    spent: btclib::hash::Hash,
}

fn setup() -> Setup {
    let owner = PrivateKey::new_key();
    let out = TransactionOutput { value: 1_000, unique_id: 7, public_key: owner.public_key() };
    let spent = out.hash();
    Setup { owner, utxos: vec![(spent, out)], spent }
}

fn block(txs: Vec<Transaction>) -> Block {
    let root = MerkleRoot::calculate(&txs);
    Block::new(
        BlockHeader::new(10, 0, btclib::hash::Hash::zero(), root, U256::minimum_target()),
        txs,
    )
}

fn pay(value: u64, id: u128) -> TransactionOutput {
    TransactionOutput { value, unique_id: id, public_key: PrivateKey::new_key().public_key() }
}

#[test]
fn double_spend_within_block_is_rejected() {
    let mut s = setup();
    let sig = Signature::sign_out(&s.spent, &mut s.owner);
    let input = TransactionInput { prev_transaction_output_hash: s.spent, signature: sig };
    let tx = Transaction::new(vec![input, input], vec![pay(500, 2)]);
    let cb = Transaction::new(vec![], vec![pay(2_500_000_000 + 1_500, 1)]);
    let b = block(vec![cb, tx]);
    assert_eq!(b.verify_transactions(210, &s.utxos), Err(BtcError::InvalidTransaction));
    assert_eq!(b.calculate_miner_fees(&s.utxos), Err(BtcError::InvalidTransaction));
}

#[test]
fn double_spend_across_transactions_is_rejected() {
    let mut s = setup();
    let sig = Signature::sign_out(&s.spent, &mut s.owner);
    let input = TransactionInput { prev_transaction_output_hash: s.spent, signature: sig };
    let t1 = Transaction::new(vec![input], vec![pay(500, 2)]);
    let t2 = Transaction::new(vec![input], vec![pay(500, 3)]);
    let cb = Transaction::new(vec![], vec![pay(5_000_001_000, 1)]);
    let b = block(vec![cb, t1, t2]);
    assert_eq!(b.verify_transactions(0, &s.utxos), Err(BtcError::InvalidTransaction));
}

#[test]
fn signature_by_other_key_is_rejected() {
    let s = setup();
    let mut stranger = PrivateKey::new_key();
    let sig = Signature::sign_out(&s.spent, &mut stranger);
    let input = TransactionInput { prev_transaction_output_hash: s.spent, signature: sig };
    let tx = Transaction::new(vec![input], vec![pay(600, 2)]);
    let cb = Transaction::new(vec![], vec![pay(5_000_000_400, 1)]);
    let b = block(vec![cb, tx]);
    assert_eq!(b.calculate_miner_fees(&s.utxos), Ok(400));
    assert_eq!(b.verify_coinbase_transaction(0, &s.utxos), Ok(()));
    assert_eq!(b.verify_transactions(0, &s.utxos), Err(BtcError::InvalidSignature));
}

#[test]
fn valid_spend_is_accepted() {
    let mut s = setup();
    let sig = Signature::sign_out(&s.spent, &mut s.owner);
    let input = TransactionInput { prev_transaction_output_hash: s.spent, signature: sig };
    let tx = Transaction::new(vec![input], vec![pay(600, 2), pay(100, 3)]);
    let cb = Transaction::new(vec![], vec![pay(5_000_000_000, 1), pay(300, 4)]);
    let b = block(vec![cb, tx]);
    assert_eq!(b.calculate_miner_fees(&s.utxos), Ok(300));
    assert_eq!(b.verify_transactions(0, &s.utxos), Ok(()));
    // one unit too much in the coinbase
    let tx2 = b.transactions[1].clone();
    let cb2 = Transaction::new(vec![], vec![pay(5_000_000_301, 1)]);
    assert_eq!(block(vec![cb2, tx2]).verify_transactions(0, &s.utxos), Err(BtcError::InvalidTransaction));
}

#[test]
fn unknown_input_is_rejected() {
    let mut s = setup();
    let missing = btclib::hash::Hash::hash(b"missing");
    let sig = Signature::sign_out(&missing, &mut s.owner);
    let input = TransactionInput { prev_transaction_output_hash: missing, signature: sig };
    let tx = Transaction::new(vec![input], vec![pay(1, 2)]);
    let cb = Transaction::new(vec![], vec![pay(5_000_000_000, 1)]);
    let b = block(vec![cb, tx]);
    assert_eq!(b.verify_transactions(0, &s.utxos), Err(BtcError::InvalidTransaction));
}

#[test]
fn overspending_is_rejected() {
    let mut s = setup();
    let sig = Signature::sign_out(&s.spent, &mut s.owner);
    let input = TransactionInput { prev_transaction_output_hash: s.spent, signature: sig };
    let tx = Transaction::new(vec![input], vec![pay(1_001, 2)]);
    let cb = Transaction::new(vec![], vec![pay(5_000_000_000, 1)]);
    let b = block(vec![cb, tx]);
    assert_eq!(b.calculate_miner_fees(&s.utxos), Err(BtcError::InvalidTransaction));
    assert_eq!(b.verify_transactions(0, &s.utxos), Err(BtcError::InvalidTransaction));
}

#[test]
fn malformed_coinbase_is_rejected() {
    let mut s = setup();
    let sig = Signature::sign_out(&s.spent, &mut s.owner);
    let input = TransactionInput { prev_transaction_output_hash: s.spent, signature: sig };
    let with_input = Transaction::new(vec![input], vec![pay(5_000_000_000, 1)]);
    assert_eq!(block(vec![with_input]).verify_transactions(0, &s.utxos), Err(BtcError::InvalidTransaction));
    let no_output = Transaction::new(vec![], vec![]);
    assert_eq!(block(vec![no_output]).verify_transactions(0, &s.utxos), Err(BtcError::InvalidTransaction));
    let empty = Block::new(block(vec![pay_tx()]).header, vec![]);
    assert_eq!(empty.verify_transactions(0, &s.utxos), Err(BtcError::InvalidBlock));
}

fn pay_tx() -> Transaction {
    Transaction::new(vec![], vec![pay(1, 1)])
}
