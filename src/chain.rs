//! The chain state: blocks, unspent outputs, current target and mempool, and
//! the one operation that extends it.
use vstd::prelude::*;
use crate::difficulty::{retarget, retarget_value};
use crate::error::BtcError;
use crate::hash::{be_value, zero_bytes};
use crate::merkle::{digests, leaf_digests, merkle_root_of, MerkleRoot};
use crate::types::{header_hash, meets_target, Block, Transaction, TransactionOutput};
use crate::validation::{fees_result, non_coinbase, reward, txs_input_keys, values_sum};
use crate::u256::{minimum_target_value, U256};
use crate::utxo::{
    apply_block, creates, entries_view, present, spends, utxo_after, utxo_apply_block, UtxoEntry,
};
use crate::encode::{blocks_bytes, entries_bytes, len_prefix, push_block, push_len, push_output, push_slice, push_u256, u256_be};
use crate::hash::sha256_of;
use crate::validation::{contains_digest, transactions_result};

verus! {

/// What extending a chain whose blocks are `prev` with `b` yields.
///
/// The first block must link to the zero digest; any later one must link to the
/// digest of the previous header, meet its own target, and be strictly later
/// than the previous block. Every block, the first included, must carry
/// transactions whose Merkle root is in its header and that meet the
/// transaction rules at its height.
pub open spec fn block_result(prev: Seq<Block>, b: Block) -> Result<(), BtcError> {
    let h = prev.len();
    let txs = b.transactions@;
    if h == 0 {
        if b.header.prev_block_hash@ != zero_bytes() {
            Err(BtcError::InvalidBlock)
        } else if txs.len() == 0 {
            Err(BtcError::InvalidBlock)
        } else if merkle_root_of(txs) != b.header.merkle_root@ {
            Err(BtcError::InvalidMerkleRoot)
        } else {
            transactions_result(b, 0, Seq::empty())
        }
    } else {
        let last = prev.last();
        if b.header.prev_block_hash@ != header_hash(last.header) {
            Err(BtcError::InvalidBlock)
        } else if !(be_value(header_hash(b.header)) <= b.header.target.value()) {
            Err(BtcError::InvalidBlock)
        } else if txs.len() == 0 {
            Err(BtcError::InvalidBlock)
        } else if merkle_root_of(txs) != b.header.merkle_root@ {
            Err(BtcError::InvalidMerkleRoot)
        } else if b.header.timestamp <= last.header.timestamp {
            Err(BtcError::InvalidBlock)
        } else {
            transactions_result(b, h as u64, utxo_after(prev))
        }
    }
}

/// Every block was accepted on top of the blocks before it.
pub open spec fn valid_chain(blocks: Seq<Block>) -> bool {
    forall|i: int| 0 <= i < blocks.len() ==> #[trigger] block_result(blocks.subrange(0, i), blocks[i]) is Ok
}

/// The target once `blocks` are committed, from target `t`: retargeted after
/// every positive multiple of the update interval.
pub open spec fn adjusted_target(t: nat, blocks: Seq<Block>) -> nat {
    let n = blocks.len() as int;
    let k = crate::DIFFICULTY_UPDATE_INTERVALS as int;
    if n > 0 && n % k == 0 {
        retarget_value(
            t,
            blocks[n - 1].header.timestamp - blocks[n - k].header.timestamp,
        )
    } else {
        t
    }
}

/// The mempool without the transactions whose digests are in `mined`.
pub open spec fn without_mined(m: Seq<Transaction>, mined: Seq<Seq<u8>>) -> Seq<Transaction>
    decreases m.len(),
{
    if m.len() == 0 {
        m
    } else if mined.contains(crate::types::tx_hash(m.last())) {
        without_mined(m.drop_last(), mined)
    } else {
        without_mined(m.drop_last(), mined).push(m.last())
    }
}

/// The bytes a chain snapshot is digested over: blocks, target and unspent
/// outputs (the mempool is left out).
pub open spec fn snapshot_bytes(blocks: Seq<Block>, target: U256, utxos: Seq<UtxoEntry>) -> Seq<u8> {
    len_prefix(blocks.len() as int) + blocks_bytes(blocks) + u256_be(target) + len_prefix(utxos.len() as int)
        + entries_bytes(utxos)
}

/// The ledger: committed blocks, unspent outputs, current target, and
/// transactions waiting to be mined.
#[derive(Debug, Clone)]
pub struct BlockChain {
    blocks: Vec<Block>,
    target: U256,
    utxos: Vec<UtxoEntry>,
    mempool: Vec<Transaction>,
}

impl BlockChain {
    /// The committed blocks.
    pub closed spec fn spec_blocks(&self) -> Seq<Block> {
        self.blocks@
    }

    /// The value of the current target.
    pub closed spec fn spec_target(&self) -> nat {
        self.target.value()
    }

    /// The unspent outputs, keyed by the bytes of their digests.
    pub closed spec fn spec_utxos(&self) -> Seq<(Seq<u8>, TransactionOutput)> {
        entries_view(self.utxos@)
    }

    /// The bytes of this chain's snapshot.
    pub closed spec fn spec_snapshot(&self) -> Seq<u8> {
        snapshot_bytes(self.blocks@, self.target, self.utxos@)
    }

    /// The transactions waiting to be mined.
    pub closed spec fn spec_mempool(&self) -> Seq<Transaction> {
        self.mempool@
    }

    /// The chain's invariant: every block was validly appended, the unspent
    /// outputs are those the blocks leave, and the target is within bounds.
    pub closed spec fn wf(&self) -> bool {
        &&& valid_chain(self.blocks@)
        &&& entries_view(self.utxos@) == utxo_after(self.blocks@)
        &&& self.target.value() <= minimum_target_value()
    }

    /// The blocks form a valid chain and the target is within bounds; the
    /// unspent outputs may be anything.
    pub closed spec fn blocks_valid(&self) -> bool {
        &&& valid_chain(self.blocks@)
        &&& self.target.value() <= minimum_target_value()
    }

    /// A well-formed chain has valid blocks and a target within bounds.
    pub proof fn lemma_wf_blocks_valid(&self)
        requires
            self.wf(),
        ensures
            self.blocks_valid(),
    {
    }

    /// An empty chain at the largest target.
    pub fn new() -> (r: BlockChain)
        ensures
            r.wf(),
            r.spec_blocks().len() == 0,
            r.spec_target() == minimum_target_value(),
            r.spec_utxos().len() == 0,
            r.spec_mempool().len() == 0,
    {
        let r = BlockChain {
            blocks: Vec::new(),
            target: U256::minimum_target(),
            utxos: Vec::new(),
            mempool: Vec::new(),
        };
        assert(entries_view(r.utxos@) =~= utxo_after(r.blocks@));
        r
    }

    /// The number of committed blocks.
    pub fn block_height(&self) -> (r: u64)
        ensures
            r == self.spec_blocks().len(),
    {
        self.blocks.len() as u64
    }

    /// The current target.
    pub fn target(&self) -> (r: U256)
        ensures
            r.value() == self.spec_target(),
    {
        self.target
    }

    /// The unspent outputs.
    pub fn utxos(&self) -> (r: &Vec<UtxoEntry>)
        ensures
            entries_view(r@) == self.spec_utxos(),
    {
        &self.utxos
    }

    /// The committed blocks, oldest first.
    pub fn blocks(&self) -> (r: &Vec<Block>)
        ensures
            r@ == self.spec_blocks(),
    {
        &self.blocks
    }

    /// The transactions waiting to be mined.
    pub fn mempool(&self) -> (r: &Vec<Transaction>)
        ensures
            r@ == self.spec_mempool(),
    {
        &self.mempool
    }

    /// Queues a transaction until a block that carries it is committed.
    pub fn add_to_mempool(&mut self, tx: Transaction)
        requires
            old(self).wf(),
        ensures
            final(self).wf(),
            final(self).spec_mempool() == old(self).spec_mempool().push(tx),
            final(self).spec_blocks() == old(self).spec_blocks(),
            final(self).spec_utxos() == old(self).spec_utxos(),
            final(self).spec_target() == old(self).spec_target(),
    {
        self.mempool.push(tx);
    }

    /// Retargets when the number of blocks is a positive multiple of the update
    /// interval, from the time the last interval of blocks took.
    pub fn try_adjust_target(&mut self)
        requires
            old(self).wf(),
        ensures
            final(self).wf(),
            final(self).spec_blocks() == old(self).spec_blocks(),
            final(self).spec_utxos() == old(self).spec_utxos(),
            final(self).spec_mempool() == old(self).spec_mempool(),
            final(self).spec_target() == adjusted_target(old(self).spec_target(), old(self).spec_blocks()),
    {
        let n = self.blocks.len();
        let k = crate::DIFFICULTY_UPDATE_INTERVALS as usize;
        if n == 0 || n % k != 0 {
            return;
        }
        let start = self.blocks[n - k].header.timestamp;
        let end = self.blocks[n - 1].header.timestamp;
        let elapsed: i128 = end as i128 - start as i128;
        let t = retarget(&self.target, elapsed);
        proof {
            crate::difficulty::lemma_retarget_clamped(self.target.value(), elapsed as int);
        }
        self.target = t;
    }

    /// The digest of the chain's snapshot.
    pub fn hash(&self) -> (r: crate::hash::Hash)
        ensures
            r@ == sha256_of(self.spec_snapshot()),
    {
        let mut out: Vec<u8> = Vec::new();
        push_len(&mut out, self.blocks.len());
        let mid = Ghost(out@);
        let mut i: usize = 0;
        while i < self.blocks.len()
            invariant
                0 <= i <= self.blocks@.len(),
                out@ == mid@ + blocks_bytes(self.blocks@.subrange(0, i as int)),
            decreases self.blocks@.len() - i,
        {
            push_block(&mut out, &self.blocks[i]);
            assert(self.blocks@.subrange(0, i + 1).drop_last() =~= self.blocks@.subrange(0, i as int));
            i = i + 1;
            assert(out@ =~= mid@ + blocks_bytes(self.blocks@.subrange(0, i as int)));
        }
        assert(self.blocks@.subrange(0, i as int) =~= self.blocks@);
        push_u256(&mut out, &self.target);
        push_len(&mut out, self.utxos.len());
        let mid2 = Ghost(out@);
        let mut j: usize = 0;
        while j < self.utxos.len()
            invariant
                0 <= j <= self.utxos@.len(),
                out@ == mid2@ + entries_bytes(self.utxos@.subrange(0, j as int)),
            decreases self.utxos@.len() - j,
        {
            let e = self.utxos[j];
            push_slice(&mut out, e.0.bytes.as_slice());
            push_output(&mut out, &e.1);
            assert(self.utxos@.subrange(0, j + 1).drop_last() =~= self.utxos@.subrange(0, j as int));
            j = j + 1;
            assert(out@ =~= mid2@ + entries_bytes(self.utxos@.subrange(0, j as int)));
        }
        assert(self.utxos@.subrange(0, j as int) =~= self.utxos@);
        assert(out@ =~= self.spec_snapshot());
        crate::hash::Hash::hash(out.as_slice())
    }

    /// Rebuilds the unspent outputs by replaying every committed block in order.
    /// The result equals the set maintained block by block.
    pub fn rebuild_utxos(&mut self)
        requires
            old(self).blocks_valid(),
        ensures
            final(self).wf(),
            old(self).wf() ==> final(self).spec_utxos() == old(self).spec_utxos(),
            final(self).spec_utxos() == utxo_after(final(self).spec_blocks()),
            final(self).spec_blocks() == old(self).spec_blocks(),
            final(self).spec_target() == old(self).spec_target(),
            final(self).spec_mempool() == old(self).spec_mempool(),
    {
        let mut u: Vec<UtxoEntry> = Vec::new();
        let mut i: usize = 0;
        assert(entries_view(u@) =~= utxo_after(self.blocks@.subrange(0, 0)));
        while i < self.blocks.len()
            invariant
                0 <= i <= self.blocks@.len(),
                entries_view(u@) == utxo_after(self.blocks@.subrange(0, i as int)),
            decreases self.blocks@.len() - i,
        {
            utxo_apply_block(&mut u, &self.blocks[i]);
            assert(self.blocks@.subrange(0, i + 1).drop_last() =~= self.blocks@.subrange(0, i as int));
            i = i + 1;
        }
        assert(self.blocks@.subrange(0, i as int) =~= self.blocks@);
        self.utxos = u;
    }

    /// Drops from the mempool the transactions whose digests are in `mined`.
    fn remove_mined(&mut self, mined: &Vec<crate::hash::Hash>)
        ensures
            final(self).mempool@ == without_mined(old(self).mempool@, digests(mined@)),
            final(self).blocks == old(self).blocks,
            final(self).utxos == old(self).utxos,
            final(self).target == old(self).target,
    {
        let mut rest: Vec<Transaction> = Vec::new();
        std::mem::swap(&mut self.mempool, &mut rest);
        let ghost m = rest@;
        let ghost d = digests(mined@);
        let mut kept: Vec<Transaction> = Vec::new();
        let ghost mut i: int = 0;
        assert(kept@ =~= without_mined(m.subrange(0, 0), d));
        assert(rest@ =~= m.subrange(0, m.len() as int));
        while rest.len() > 0
            invariant
                0 <= i <= m.len(),
                rest@ == m.subrange(i, m.len() as int),
                kept@ == without_mined(m.subrange(0, i), d),
                d == digests(mined@),
            decreases rest@.len(),
        {
            let t = rest.remove(0);
            let h = t.hash();
            proof {
                assert(t == m[i]);
                assert(m.subrange(0, i + 1).drop_last() =~= m.subrange(0, i));
                assert(m.subrange(0, i + 1).last() == m[i]);
            }
            if !contains_digest(mined, &h) {
                kept.push(t);
            }
            proof {
                i = i + 1;
                assert(rest@ =~= m.subrange(i, m.len() as int));
            }
        }
        assert(m.subrange(0, i) =~= m);
        self.mempool = kept;
    }

    /// Validates `block` on top of the chain and commits it.
    ///
    /// On success the block's transactions leave the mempool, the unspent
    /// outputs take the block's effect, the block is appended and the target is
    /// adjusted. On failure the chain is left unchanged.
    pub fn add_block(&mut self, block: Block) -> (r: Result<(), BtcError>)
        requires
            old(self).wf(),
        ensures
            final(self).wf(),
            r == block_result(old(self).spec_blocks(), block),
            r is Ok ==> {
                &&& final(self).spec_blocks() == old(self).spec_blocks().push(block)
                &&& final(self).spec_utxos() == apply_block(old(self).spec_utxos(), block)
                &&& final(self).spec_target() == adjusted_target(old(self).spec_target(), final(self).spec_blocks())
                &&& final(self).spec_mempool() == without_mined(old(self).spec_mempool(), leaf_digests(block.transactions@))
            },
            r is Err ==> *final(self) == *old(self),
    {
        let h = self.blocks.len();
        if h == 0 {
            if !block.header.prev_block_hash.same(&crate::hash::Hash::zero()) {
                return Err(BtcError::InvalidBlock);
            }
        } else {
            let last_hash = self.blocks[h - 1].header.hash();
            if !block.header.prev_block_hash.same(&last_hash) {
                return Err(BtcError::InvalidBlock);
            }
            if !block.header.hash().matches_target(&block.header.target) {
                return Err(BtcError::InvalidBlock);
            }
        }
        if block.transactions.len() == 0 {
            return Err(BtcError::InvalidBlock);
        }
        let root = MerkleRoot::calculate(block.transactions.as_slice());
        if !root.0.same(&block.header.merkle_root.0) {
            return Err(BtcError::InvalidMerkleRoot);
        }
        if h > 0 && block.header.timestamp <= self.blocks[h - 1].header.timestamp {
            return Err(BtcError::InvalidBlock);
        }
        match block.verify_transactions(h as u64, &self.utxos) {
            Err(e) => {
                return Err(e);
            },
            Ok(_) => {},
        }
        let ghost old_blocks = self.blocks@;
        let ghost accepted = block_result(old_blocks, block);
        assert(accepted is Ok);
        let mined = crate::merkle::transaction_digests(block.transactions.as_slice());
        self.remove_mined(&mined);
        utxo_apply_block(&mut self.utxos, &block);
        self.blocks.push(block);
        proof {
            let nb = self.blocks@;
            assert(nb.drop_last() =~= old_blocks);
            assert forall|i: int| 0 <= i < nb.len() implies #[trigger] block_result(nb.subrange(0, i), nb[i]) is Ok by {
                if i < old_blocks.len() {
                    assert(nb.subrange(0, i) =~= old_blocks.subrange(0, i));
                    assert(nb[i] == old_blocks[i]);
                } else {
                    assert(nb.subrange(0, i) =~= old_blocks);
                }
            }
        }
        self.try_adjust_target();
        Ok(())
    }
}


/// Every block after the first links to the digest of the header before it.
pub proof fn lemma_blocks_linked(c: BlockChain, i: int)
    requires
        c.wf(),
        1 <= i < c.spec_blocks().len(),
    ensures
        c.spec_blocks()[i].header.prev_block_hash@ == header_hash(c.spec_blocks()[i - 1].header),
{
    let b = c.blocks@;
    assert(block_result(b.subrange(0, i), b[i]) is Ok);
    assert(b.subrange(0, i).last() == b[i - 1]);
}

/// Every block after the first meets its own proof-of-work target.
pub proof fn lemma_blocks_meet_target(c: BlockChain, i: int)
    requires
        c.wf(),
        1 <= i < c.spec_blocks().len(),
    ensures
        meets_target(c.spec_blocks()[i].header),
{
    let b = c.blocks@;
    assert(block_result(b.subrange(0, i), b[i]) is Ok);
}

/// Every block's header holds the Merkle root of its transactions.
pub proof fn lemma_blocks_merkle(c: BlockChain, i: int)
    requires
        c.wf(),
        0 <= i < c.spec_blocks().len(),
    ensures
        merkle_root_of(c.spec_blocks()[i].transactions@) == c.spec_blocks()[i].header.merkle_root@,
{
    let b = c.blocks@;
    assert(block_result(b.subrange(0, i), b[i]) is Ok);
}

/// Block timestamps strictly increase along the chain.
pub proof fn lemma_timestamps_increase(c: BlockChain, i: int, j: int)
    requires
        c.wf(),
        0 <= i < j < c.spec_blocks().len(),
    ensures
        c.spec_blocks()[i].header.timestamp < c.spec_blocks()[j].header.timestamp,
    decreases j - i,
{
    let b = c.blocks@;
    assert(block_result(b.subrange(0, j), b[j]) is Ok);
    assert(b.subrange(0, j).last() == b[j - 1]);
    if i < j - 1 {
        lemma_timestamps_increase(c, i, j - 1);
    }
}

/// In every block, the coinbase outputs sum to the reward at the block's height
/// plus the fees of the block's other transactions.
pub proof fn lemma_coinbase_pays_reward_and_fees(c: BlockChain, i: int)
    requires
        c.wf(),
        0 <= i < c.spec_blocks().len(),
    ensures
        fees_result(c.spec_blocks()[i], utxo_after(c.spec_blocks().subrange(0, i))) is Ok,
        values_sum(c.spec_blocks()[i].transactions@[0].outputs@) == reward(i as u64) + fees_result(
            c.spec_blocks()[i],
            utxo_after(c.spec_blocks().subrange(0, i)),
        )->Ok_0,
{
    let b = c.blocks@;
    assert(block_result(b.subrange(0, i), b[i]) is Ok);
    if i == 0 {
        assert(b.subrange(0, 0) =~= Seq::<Block>::empty());
        assert(utxo_after(b.subrange(0, 0)) == Seq::<(Seq<u8>, TransactionOutput)>::empty());
    }
}


/// No committed block references the same output twice from its inputs.
pub proof fn lemma_blocks_no_double_spend(c: BlockChain, i: int)
    requires
        c.wf(),
        0 <= i < c.spec_blocks().len(),
    ensures
        txs_input_keys(non_coinbase(c.spec_blocks()[i])).no_duplicates(),
{
    let b = c.blocks@;
    assert(block_result(b.subrange(0, i), b[i]) is Ok);
    if i == 0 {
        crate::validation::lemma_no_double_spend_in_block(b[i], 0, Seq::empty());
    } else {
        crate::validation::lemma_no_double_spend_in_block(b[i], i as u64, utxo_after(b.subrange(0, i)));
    }
}


/// No two blocks create an output with the same digest.
pub open spec fn outputs_unique(blocks: Seq<Block>) -> bool {
    forall|i: int, l: int, k: Seq<u8>|
        0 <= i < l < blocks.len() ==> !(#[trigger] creates(blocks[i], k) && #[trigger] creates(blocks[l], k))
}

proof fn lemma_block_rules(blocks: Seq<Block>, i: int)
    requires
        valid_chain(blocks),
        0 <= i < blocks.len(),
    ensures
        transactions_result(blocks[i], i as u64, utxo_after(blocks.subrange(0, i))) is Ok,
{
    assert(block_result(blocks.subrange(0, i), blocks[i]) is Ok);
    if i == 0 {
        assert(blocks.subrange(0, 0) =~= Seq::<Block>::empty());
    }
}

proof fn lemma_spend_history(blocks: Seq<Block>, n: int)
    requires
        valid_chain(blocks),
        outputs_unique(blocks),
        0 <= n <= blocks.len(),
    ensures
        forall|k: Seq<u8>| #[trigger] present(utxo_after(blocks.subrange(0, n)), k) ==> exists|i: int|
            0 <= i < n && creates(blocks[i], k),
        forall|i: int, k: Seq<u8>| 0 <= i < n && #[trigger] spends(blocks[i], k) ==> !present(
            utxo_after(blocks.subrange(0, n)),
            k,
        ),
        forall|i: int, k: Seq<u8>| 0 <= i < n && #[trigger] spends(blocks[i], k) ==> exists|i2: int|
            0 <= i2 < i && creates(blocks[i2], k),
        forall|i: int, l: int, k: Seq<u8>|
            0 <= i < l < n && #[trigger] spends(blocks[i], k) ==> !#[trigger] spends(blocks[l], k),
    decreases n,
{
    if n > 0 {
        let m = n - 1;
        lemma_spend_history(blocks, m);
        let p = blocks.subrange(0, m);
        let u = utxo_after(p);
        let b = blocks[m];
        assert(blocks.subrange(0, n).drop_last() =~= p);
        let u2 = utxo_after(blocks.subrange(0, n));
        assert(u2 == apply_block(u, b));
        lemma_block_rules(blocks, m);
        assert forall|k: Seq<u8>| #[trigger] present(u2, k) implies exists|i: int| 0 <= i < n && creates(blocks[i], k) by {
            crate::utxo::lemma_block_present(u, b, k);
        }
        assert forall|i: int, k: Seq<u8>| 0 <= i < n && #[trigger] spends(blocks[i], k) implies exists|i2: int|
            0 <= i2 < i && creates(blocks[i2], k) by {
            if i == m {
                crate::validation::lemma_spent_was_present(b, m as u64, u, k);
            }
        }
        assert forall|i: int, k: Seq<u8>| 0 <= i < n && #[trigger] spends(blocks[i], k) implies !present(u2, k) by {
            let i2 = choose|i2: int| 0 <= i2 < i && creates(blocks[i2], k);
            assert(!creates(b, k)) by {
                if creates(b, k) {
                    assert(creates(blocks[i2], k) && creates(blocks[m], k));
                }
            }
            crate::utxo::lemma_block_present(u, b, k);
        }
        assert forall|i: int, l: int, k: Seq<u8>| 0 <= i < l < n && #[trigger] spends(blocks[i], k) implies !#[trigger] spends(
            blocks[l],
            k,
        ) by {
            if l == m && spends(blocks[l], k) {
                crate::validation::lemma_spent_was_present(b, m as u64, u, k);
            }
        }
    }
}

/// Along a chain in which no two blocks create an output with the same
/// digest, no output is spent by inputs of two different blocks.
pub proof fn lemma_no_double_spend_across_blocks(c: BlockChain, i: int, l: int, k: Seq<u8>)
    requires
        c.wf(),
        outputs_unique(c.spec_blocks()),
        0 <= i < l < c.spec_blocks().len(),
        spends(c.spec_blocks()[i], k),
    ensures
        !spends(c.spec_blocks()[l], k),
{
    lemma_spend_history(c.blocks@, c.blocks@.len() as int);
}


/// Committing blocks moves the target by at most a factor of four and never
/// above the largest target.
pub proof fn lemma_adjusted_target_clamped(t: nat, blocks: Seq<Block>)
    requires
        t <= minimum_target_value(),
    ensures
        t / 4 <= adjusted_target(t, blocks) <= t * 4,
        adjusted_target(t, blocks) <= minimum_target_value(),
{
    let n = blocks.len() as int;
    let k = crate::DIFFICULTY_UPDATE_INTERVALS as int;
    if n > 0 && n % k == 0 {
        crate::difficulty::lemma_retarget_clamped(
            t,
            blocks[n - 1].header.timestamp - blocks[n - k].header.timestamp,
        );
    }
}

} // verus!
