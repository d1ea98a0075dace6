//! Transactions, blocks, and the chain that validates and holds them.
use vstd::prelude::*;
use crate::crypto::{PublicKey, Signature};
use crate::merkle::MerkleRoot;
use crate::encode::{
    header_bytes, output_bytes, push_header, push_output, push_transaction, tx_bytes,
};
use crate::hash::{be_value, sha256_of};
use crate::u256::U256;

verus! {

/// An amount paid to a public key; `unique_id` tells apart otherwise equal outputs.
#[derive(Debug, Clone, Copy, PartialEq, Eq)]
pub struct TransactionOutput {
    pub value: u64,
    pub unique_id: u128,
    pub public_key: PublicKey,
}

/// A reference to an unspent output, with a signature over that output's digest.
#[derive(Debug, Clone, Copy, PartialEq, Eq)]
pub struct TransactionInput {
    pub prev_transaction_output_hash: crate::hash::Hash,
    pub signature: Signature,
}

/// Ordered inputs and ordered outputs.
#[derive(Debug, Clone)]
pub struct Transaction {
    pub inputs: Vec<TransactionInput>,
    pub outputs: Vec<TransactionOutput>,
}

/// The header of a block; `timestamp` is in seconds since the Unix epoch.
#[derive(Debug, Clone, Copy, PartialEq, Eq)]
pub struct BlockHeader {
    pub timestamp: i64,
    pub nonce: u64,
    pub prev_block_hash: crate::hash::Hash,
    pub merkle_root: MerkleRoot,
    pub target: U256,
}

/// A header and the ordered transactions it commits to; the first is the coinbase.
#[derive(Debug, Clone)]
pub struct Block {
    pub header: BlockHeader,
    pub transactions: Vec<Transaction>,
}

} // verus!

verus! {

/// The digest of an output.
#[verifier::opaque]
pub open spec fn output_hash(o: TransactionOutput) -> Seq<u8> {
    sha256_of(output_bytes(o))
}

/// The digest of a transaction.
#[verifier::opaque]
pub open spec fn tx_hash(t: Transaction) -> Seq<u8> {
    sha256_of(tx_bytes(t))
}

/// The digest of a header; a block is identified by the digest of its header.
#[verifier::opaque]
pub open spec fn header_hash(h: BlockHeader) -> Seq<u8> {
    sha256_of(header_bytes(h))
}

impl TransactionOutput {
    /// The digest of this output, its key in the UTXO set.
    pub fn hash(&self) -> (r: crate::hash::Hash)
        ensures
            r@ == output_hash(*self),
    {
        let mut out: Vec<u8> = Vec::new();
        push_output(&mut out, self);
        proof {
            reveal(output_hash);
        }
        crate::hash::Hash::hash(out.as_slice())
    }
}

impl Transaction {
    pub fn new(inputs: Vec<TransactionInput>, outputs: Vec<TransactionOutput>) -> (r: Transaction)
        ensures
            r.inputs@ == inputs@,
            r.outputs@ == outputs@,
    {
        Transaction { inputs, outputs }
    }

    /// The digest of this transaction.
    pub fn hash(&self) -> (r: crate::hash::Hash)
        ensures
            r@ == tx_hash(*self),
    {
        let mut out: Vec<u8> = Vec::new();
        push_transaction(&mut out, self);
        proof {
            reveal(tx_hash);
        }
        crate::hash::Hash::hash(out.as_slice())
    }
}

/// Relies on chrono's `Utc::now`: the current time as whole seconds since the
/// Unix epoch; nothing is promised of its value.
#[verifier::external_body]
fn now_seconds() -> (r: i64) {
    chrono::Utc::now().timestamp()
}

/// Whether the header's digest, read as a big-endian integer, is at most its target.
pub open spec fn meets_target(h: BlockHeader) -> bool {
    be_value(header_hash(h)) <= h.target.value()
}

/// `h` with its nonce replaced by `n`.
pub open spec fn with_nonce(h: BlockHeader, n: u64) -> BlockHeader {
    BlockHeader {
        timestamp: h.timestamp,
        nonce: n,
        prev_block_hash: h.prev_block_hash,
        merkle_root: h.merkle_root,
        target: h.target,
    }
}

/// The header after `k` steps of the nonce search from `h`: the nonce moved
/// on by `k`, and, once it has wrapped past the largest word, restarted at
/// zero with the timestamp set to `now`.
pub open spec fn step_header(h: BlockHeader, now: i64, k: int) -> BlockHeader {
    if h.nonce + k <= u64::MAX {
        with_nonce(h, (h.nonce + k) as u64)
    } else {
        BlockHeader {
            timestamp: now,
            nonce: (h.nonce + k - 0x1_0000_0000_0000_0000) as u64,
            prev_block_hash: h.prev_block_hash,
            merkle_root: h.merkle_root,
            target: h.target,
        }
    }
}

/// What a nonce search of at most `steps` steps from `h` leaves, with `now`
/// as the time read at a wrap: `h` itself when it already meets its target;
/// otherwise the first header along the search that meets it, or the header
/// after the last step when none does.
pub open spec fn mining_outcome(h: BlockHeader, steps: int, now: i64, h2: BlockHeader, r: bool) -> bool {
    if meets_target(h) {
        r && h2 == h
    } else {
        &&& (r <==> exists|k: int| 1 <= k <= steps && meets_target(#[trigger] step_header(h, now, k)))
        &&& (r ==> exists|k: int|
            1 <= k <= steps && h2 == step_header(h, now, k) && forall|j: int|
                1 <= j < k ==> !meets_target(#[trigger] step_header(h, now, j)))
        &&& (!r ==> h2 == step_header(h, now, steps))
    }
}

proof fn lemma_outcome_without_wrap(h: BlockHeader, steps: int, now: i64, h2: BlockHeader, r: bool)
    requires
        mining_outcome(h, steps, now, h2, r),
        r == meets_target(h2),
        !meets_target(h),
        0 <= steps,
        h.nonce as int + steps <= u64::MAX as int,
    ensures
        h2.timestamp == h.timestamp,
        r <==> exists|k: int| 1 <= k <= steps && meets_target(#[trigger] with_nonce(h, (h.nonce + k) as u64)),
        r ==> h.nonce < h2.nonce <= h.nonce + steps,
        r ==> forall|j: int| h.nonce < j < h2.nonce ==> !meets_target(#[trigger] with_nonce(h, j as u64)),
        !r ==> h2.nonce as int == h.nonce as int + steps,
{
    assert forall|k: int| 0 <= k <= steps implies #[trigger] step_header(h, now, k) == with_nonce(
        h,
        (h.nonce + k) as u64,
    ) by {}
    if r {
        let k = choose|k: int|
            1 <= k <= steps && h2 == step_header(h, now, k) && forall|j: int|
                1 <= j < k ==> !meets_target(#[trigger] step_header(h, now, j));
        assert forall|j: int| h.nonce < j < h2.nonce implies !meets_target(#[trigger] with_nonce(h, j as u64)) by {
            assert(step_header(h, now, j - h.nonce) == with_nonce(h, j as u64));
        }
        assert(meets_target(with_nonce(h, (h.nonce + k) as u64)));
    } else {
        assert forall|k: int| 1 <= k <= steps implies !meets_target(
            #[trigger] with_nonce(h, (h.nonce + k) as u64),
        ) by {
            assert(step_header(h, now, k) == with_nonce(h, (h.nonce + k) as u64));
        }
    }
}

proof fn lemma_outcome_nonce(h: BlockHeader, steps: int, now: i64, h2: BlockHeader, r: bool)
    requires
        mining_outcome(h, steps, now, h2, r),
        !meets_target(h),
        !r,
        0 <= steps < 0x1_0000_0000_0000_0000,
    ensures
        h2.nonce as int == (h.nonce as int + steps) % 0x1_0000_0000_0000_0000,
        h2.prev_block_hash == h.prev_block_hash,
        h2.merkle_root == h.merkle_root,
        h2.target == h.target,
{
}

impl BlockHeader {
    pub fn new(
        timestamp: i64,
        nonce: u64,
        prev_block_hash: crate::hash::Hash,
        merkle_root: MerkleRoot,
        target: U256,
    ) -> (r: BlockHeader)
        ensures
            r == (BlockHeader { timestamp, nonce, prev_block_hash, merkle_root, target }),
    {
        BlockHeader { timestamp, nonce, prev_block_hash, merkle_root, target }
    }

    /// The digest of this header.
    pub fn hash(&self) -> (r: crate::hash::Hash)
        ensures
            r@ == header_hash(*self),
    {
        let mut out: Vec<u8> = Vec::new();
        push_header(&mut out, self);
        proof {
            reveal(header_hash);
        }
        crate::hash::Hash::hash(out.as_slice())
    }

    /// Searches for a nonce that makes the header meet its target, trying at
    /// most `steps` nonces after the current one, in order. When the nonce
    /// would overflow it restarts at zero and the timestamp becomes `now`.
    /// Returns whether the header, as left, meets its target; it is left at
    /// the first nonce that does, or after the last one tried.
    pub fn mine_at(&mut self, steps: usize, now: i64) -> (r: bool)
        ensures
            r == meets_target(*final(self)),
            mining_outcome(*old(self), steps as int, now, *final(self), r),
    {
        let ghost start = *self;
        if self.hash().matches_target(&self.target) {
            return true;
        }
        let mut i: usize = 0;
        assert(step_header(start, now, 0) == start);
        while i < steps
            invariant
                0 <= i <= steps,
                start == *old(self),
                !meets_target(start),
                *self == step_header(start, now, i as int),
                forall|j: int| 1 <= j <= i ==> !meets_target(#[trigger] step_header(start, now, j)),
            decreases steps - i,
        {
            if self.nonce < 0xFFFF_FFFF_FFFF_FFFFu64 {
                self.nonce = self.nonce + 1;
            } else {
                self.nonce = 0;
                self.timestamp = now;
            }
            assert(*self == step_header(start, now, i + 1));
            if self.hash().matches_target(&self.target) {
                let ghost k: int = i + 1;
                assert(meets_target(step_header(start, now, k)));
                assert(forall|j: int| 1 <= j < k ==> !meets_target(#[trigger] step_header(start, now, j)));
                assert(1 <= k <= steps && *self == step_header(start, now, k) && forall|j: int|
                    1 <= j < k ==> !meets_target(#[trigger] step_header(start, now, j)));
                assert(exists|k2: int| 1 <= k2 <= steps && meets_target(#[trigger] step_header(start, now, k2)));
                assert(mining_outcome(start, steps as int, now, *self, true));
                return true;
            }
            i = i + 1;
        }
        false
    }

    /// Searches for a nonce that makes the header meet its target, trying at
    /// most `steps` nonces after the current one, in order. When the nonce
    /// would overflow it restarts at zero and the timestamp is set to the
    /// current time. Returns whether the header, as left, meets its target.
    pub fn mine(&mut self, steps: usize) -> (r: bool)
        ensures
            r == meets_target(*final(self)),
            exists|now: i64| mining_outcome(*old(self), steps as int, now, *final(self), r),
            final(self).prev_block_hash == old(self).prev_block_hash,
            final(self).merkle_root == old(self).merkle_root,
            final(self).target == old(self).target,
            meets_target(*old(self)) ==> r && *final(self) == *old(self),
            !meets_target(*old(self)) && old(self).nonce as int + steps as int <= u64::MAX as int ==> {
                &&& final(self).timestamp == old(self).timestamp
                &&& (r <==> exists|k: int|
                    1 <= k <= steps && meets_target(
                        #[trigger] with_nonce(*old(self), (old(self).nonce + k) as u64),
                    ))
                &&& (r ==> old(self).nonce < final(self).nonce <= old(self).nonce + steps)
                &&& (r ==> forall|j: int|
                    old(self).nonce < j < final(self).nonce ==> !meets_target(
                        #[trigger] with_nonce(*old(self), j as u64),
                    ))
            },
            !meets_target(*old(self)) && !r ==> final(self).nonce as int == (old(self).nonce as int
                + steps as int) % 0x1_0000_0000_0000_0000,
    {
        let ghost start = *self;
        let now = if (self.nonce as u128) + (steps as u128) > 0xFFFF_FFFF_FFFF_FFFFu128 {
            now_seconds()
        } else {
            self.timestamp
        };
        let r = self.mine_at(steps, now);
        proof {
            if !meets_target(start) && start.nonce as int + steps as int <= u64::MAX as int {
                lemma_outcome_without_wrap(start, steps as int, now, *self, r);
            }
            if !meets_target(start) && !r {
                lemma_outcome_nonce(start, steps as int, now, *self, r);
            }
            if !meets_target(start) && r {
                let k = choose|k: int|
                    1 <= k <= steps && *self == step_header(start, now, k) && forall|j: int|
                        1 <= j < k ==> !meets_target(#[trigger] step_header(start, now, j));
                assert(self.prev_block_hash == start.prev_block_hash);
            }
        }
        r
    }
}

impl Block {
    pub fn new(header: BlockHeader, transactions: Vec<Transaction>) -> (r: Block)
        ensures
            r.header == header,
            r.transactions@ == transactions@,
    {
        Block { header, transactions }
    }

    /// The identity of the block: the digest of its header.
    pub fn hash(&self) -> (r: crate::hash::Hash)
        ensures
            r@ == header_hash(self.header),
    {
        self.header.hash()
    }
}

} // verus!
