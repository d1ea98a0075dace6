use btclib::crypto::{PrivateKey, Signature};
use btclib::error::BtcError;
use btclib::merkle::MerkleRoot;
use btclib::types::{BlockHeader, Transaction, TransactionOutput};
use btclib::u256::U256;

fn hex(bytes: &[u8]) -> String {
    bytes.iter().map(|b| format!("{:02x}", b)).collect()
}

#[test]
fn digest_is_sha256() {
    let h = btclib::hash::Hash::hash(b"abc");
    assert_eq!(
        hex(&h.as_bytes()),
        "ba7816bf8f01cfea414140de5dae2223b00361a396177a9cb410ff61f20015ad"
    );
    assert_eq!(btclib::hash::Hash::zero().as_bytes(), [0u8; 32]);
}

#[test]
fn target_matching_is_big_endian() {
    let mut bytes = [0u8; 32];
    bytes[31] = 5;
    let h = btclib::hash::Hash::from_bytes(bytes);
    assert!(h.matches_target(&U256::from_u64(5)));
    assert!(!h.matches_target(&U256::from_u64(4)));
    let mut top = [0u8; 32];
    top[1] = 1;
    let big = btclib::hash::Hash::from_bytes(top);
    assert!(!big.matches_target(&U256::minimum_target()));
    top[1] = 0;
    top[2] = 0xff;
    assert!(btclib::hash::Hash::from_bytes(top).matches_target(&U256::minimum_target()));
    assert_eq!(big.to_u256(), U256([0, 0, 0, 1u64 << 48]));
}

#[test]
fn u256_arithmetic() {
    let a = U256([u64::MAX, 3, 0, 0]);
    assert_eq!(a.mul_small(2), U256([u64::MAX - 1, 7, 0, 0]));
    assert_eq!(a.div_small(2), U256([u64::MAX, 1, 0, 0]));
    assert_eq!(U256::from_u64(1_000).div_small(3), U256::from_u64(333));
    assert!(U256::from_u64(3).lt(&U256([0, 1, 0, 0])));
    assert_eq!(U256::from_u64(9).min(&U256::from_u64(4)), U256::from_u64(4));
}

#[test]
fn signature_round_trip() {
    let mut sk = PrivateKey::new_key();
    let pk = sk.public_key();
    let d = btclib::hash::Hash::hash(b"output");
    let sig = Signature::sign_out(&d, &mut sk);
    assert!(sig.verify(&d, &pk));
    let other = btclib::hash::Hash::hash(b"other output");
    assert!(!sig.verify(&other, &pk));
    assert!(!sig.verify(&d, &PrivateKey::new_key().public_key()));
    // signing is deterministic
    assert_eq!(Signature::sign_out(&d, &mut sk), sig);
}

#[test]
fn private_key_from_bytes() {
    assert!(matches!(PrivateKey::from_bytes([0u8; 32]), Err(BtcError::InvalidPrivateKey)));
    assert!(matches!(PrivateKey::from_bytes([0xffu8; 32]), Err(BtcError::InvalidPrivateKey)));
    let sk = PrivateKey::new_key();
    let again = PrivateKey::from_bytes(sk.to_bytes()).ok().unwrap();
    assert_eq!(again.public_key(), sk.public_key());
    assert_eq!(sk.public_key().bytes.len(), 33);
}

#[test]
fn unique_id_separates_outputs() {
    let pk = PrivateKey::new_key().public_key();
    let a = TransactionOutput { value: 10, unique_id: 1, public_key: pk };
    let b = TransactionOutput { value: 10, unique_id: 2, public_key: pk };
    assert_ne!(a.hash(), b.hash());
    assert_eq!(a.hash(), a.hash());
}

fn tx(id: u128) -> Transaction {
    let pk = PrivateKey::from_bytes([1u8; 32]).ok().unwrap().public_key();
    Transaction::new(vec![], vec![TransactionOutput { value: 1, unique_id: id, public_key: pk }])
}

fn pair(l: &btclib::hash::Hash, r: &btclib::hash::Hash) -> btclib::hash::Hash {
    let mut v = l.as_bytes().to_vec();
    v.extend_from_slice(&r.as_bytes());
    btclib::hash::Hash::hash(&v)
}

#[test]
fn merkle_root_of_one_is_its_digest() {
    let t = tx(1);
    assert_eq!(MerkleRoot::calculate(&[t.clone()]).0, t.hash());
}

#[test]
fn merkle_root_pairs_and_duplicates() {
    let (a, b, c) = (tx(1), tx(2), tx(3));
    let (ha, hb, hc) = (a.hash(), b.hash(), c.hash());
    assert_eq!(MerkleRoot::calculate(&[a.clone(), b.clone()]).0, pair(&ha, &hb));
    let expected = pair(&pair(&ha, &hb), &pair(&hc, &hc));
    assert_eq!(MerkleRoot::calculate(&[a.clone(), b.clone(), c.clone()]).0, expected);
    // the same sequence gives the same root; another order another root
    assert_eq!(MerkleRoot::calculate(&[a.clone(), b.clone(), c.clone()]).0, expected);
    assert_ne!(MerkleRoot::calculate(&[b, a, c]).0, expected);
}

#[test]
fn mining_meets_target() {
    let root = MerkleRoot::calculate(&[tx(1)]);
    let mut header = BlockHeader::new(5, 0, btclib::hash::Hash::zero(), root, U256::minimum_target());
    assert!(header.mine(10_000_000));
    assert!(header.hash().matches_target(&header.target));
    let nonce = header.nonce;
    // already meeting: unchanged
    assert!(header.mine(0));
    assert_eq!(header.nonce, nonce);
}

#[test]
fn mining_gives_up_after_budget() {
    let root = MerkleRoot::calculate(&[tx(1)]);
    let mut header = BlockHeader::new(5, 0, btclib::hash::Hash::zero(), root, U256::zero());
    assert!(!header.mine(3));
    assert_eq!(header.nonce, 3);
    assert_eq!(header.timestamp, 5);
}

#[test]
fn mining_rolls_timestamp_on_nonce_overflow() {
    let root = MerkleRoot::calculate(&[tx(1)]);
    let mut header = BlockHeader::new(5, u64::MAX, btclib::hash::Hash::zero(), root, U256::zero());
    assert!(!header.mine(1));
    assert_eq!(header.nonce, 0);
    assert!(header.timestamp > 1_600_000_000);
}

#[test]
fn header_digest_covers_every_field() {
    let root = MerkleRoot::calculate(&[tx(1)]);
    let h = BlockHeader::new(5, 0, btclib::hash::Hash::zero(), root, U256::minimum_target());
    let mut other = h;
    other.timestamp = -5;
    assert_ne!(h.hash(), other.hash());
    let mut other = h;
    other.target = U256::zero();
    assert_ne!(h.hash(), other.hash());
}

#[test]
fn mining_stops_at_first_meeting_nonce() {
    let root = MerkleRoot::calculate(&[tx(1)]);
    let start = BlockHeader::new(5, 0, btclib::hash::Hash::zero(), root, U256::minimum_target());
    let mut header = start;
    assert!(header.mine(10_000_000));
    assert_eq!(header.timestamp, 5);
    for n in 1..header.nonce {
        let mut earlier = start;
        earlier.nonce = n;
        assert!(!earlier.hash().matches_target(&earlier.target));
    }
}

#[test]
fn mining_with_given_clock_at_wrap() {
    let root = MerkleRoot::calculate(&[tx(1)]);
    let mut header = BlockHeader::new(5, u64::MAX - 1, btclib::hash::Hash::zero(), root, U256::zero());
    assert!(!header.mine_at(4, 77));
    assert_eq!(header.nonce, 2);
    assert_eq!(header.timestamp, 77);
    let mut before_wrap = BlockHeader::new(5, 10, btclib::hash::Hash::zero(), root, U256::zero());
    assert!(!before_wrap.mine_at(4, 77));
    assert_eq!(before_wrap.nonce, 14);
    assert_eq!(before_wrap.timestamp, 5);
}

#[test]
fn secret_scalar_bounds() {
    let order: [u8; 32] = [
        0xFF, 0xFF, 0xFF, 0xFF, 0xFF, 0xFF, 0xFF, 0xFF, 0xFF, 0xFF, 0xFF, 0xFF, 0xFF, 0xFF, 0xFF, 0xFE,
        0xBA, 0xAE, 0xDC, 0xE6, 0xAF, 0x48, 0xA0, 0x3B, 0xBF, 0xD2, 0x5E, 0x8C, 0xD0, 0x36, 0x41, 0x41,
    ];
    assert!(matches!(PrivateKey::from_bytes(order), Err(BtcError::InvalidPrivateKey)));
    let mut below = order;
    below[31] = 0x40;
    assert!(PrivateKey::from_bytes(below).is_ok());
    let mut one = [0u8; 32];
    one[31] = 1;
    assert!(PrivateKey::from_bytes(one).is_ok());
}
