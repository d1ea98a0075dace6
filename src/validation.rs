//! The rules a block's transactions must meet against the unspent outputs.
use vstd::prelude::*;
use crate::crypto::ecdsa_accepts;
use crate::error::BtcError;
use crate::types::{Block, Transaction, TransactionInput, TransactionOutput};
use crate::utxo::{entries_view, lookup, present, spends, utxo_get, UtxoEntry};

verus! {

/// `x` shifted right by `k` bits.
pub open spec fn shr(x: nat, k: nat) -> nat
    decreases k,
{
    if k == 0 {
        x
    } else {
        shr(x, (k - 1) as nat) / 2
    }
}

/// The block reward at height `h`: 50 coins of 10^8 units, halved every 210 blocks.
pub open spec fn reward(h: u64) -> nat {
    shr((crate::INITIAL_REWARD * 100_000_000) as nat, (h / crate::HALVING_INTERVAL) as nat)
}

/// The sum of the values of a list of outputs.
pub open spec fn values_sum(s: Seq<TransactionOutput>) -> int
    decreases s.len(),
{
    if s.len() == 0 {
        0
    } else {
        values_sum(s.drop_last()) + s.last().value
    }
}

/// The inputs of a transaction checked in order against the unspent outputs `u`,
/// given the digests `spent` already referenced in the block. Yields the
/// digests referenced so far and the value of these inputs.
pub open spec fn check_inputs(
    ins: Seq<TransactionInput>,
    u: Seq<(Seq<u8>, TransactionOutput)>,
    spent: Seq<Seq<u8>>,
    check_sigs: bool,
) -> Result<(Seq<Seq<u8>>, int), BtcError>
    decreases ins.len(),
{
    if ins.len() == 0 {
        Ok((spent, 0))
    } else {
        match check_inputs(ins.drop_last(), u, spent, check_sigs) {
            Err(e) => Err(e),
            Ok((s, sum)) => {
                let i = ins.last();
                let k = i.prev_transaction_output_hash@;
                match lookup(u, k) {
                    None => Err(BtcError::InvalidTransaction),
                    Some(o) => if s.contains(k) {
                        Err(BtcError::InvalidTransaction)
                    } else if check_sigs && !ecdsa_accepts(o.public_key@, k, i.signature@) {
                        Err(BtcError::InvalidSignature)
                    } else {
                        Ok((s.push(k), sum + o.value))
                    },
                }
            },
        }
    }
}

/// One transaction checked: its inputs, then that they hold at least the value
/// of its outputs. Yields the digests referenced so far and the transaction's fee.
pub open spec fn check_tx(
    t: Transaction,
    u: Seq<(Seq<u8>, TransactionOutput)>,
    spent: Seq<Seq<u8>>,
    check_sigs: bool,
) -> Result<(Seq<Seq<u8>>, int), BtcError> {
    match check_inputs(t.inputs@, u, spent, check_sigs) {
        Err(e) => Err(e),
        Ok((s, sum)) => if sum < values_sum(t.outputs@) {
            Err(BtcError::InvalidTransaction)
        } else {
            Ok((s, sum - values_sum(t.outputs@)))
        },
    }
}

/// Transactions checked in order. Yields the digests referenced and the total fee.
pub open spec fn check_txs(
    txs: Seq<Transaction>,
    u: Seq<(Seq<u8>, TransactionOutput)>,
    check_sigs: bool,
) -> Result<(Seq<Seq<u8>>, int), BtcError>
    decreases txs.len(),
{
    if txs.len() == 0 {
        Ok((Seq::empty(), 0))
    } else {
        match check_txs(txs.drop_last(), u, check_sigs) {
            Err(e) => Err(e),
            Ok((s, fees)) => match check_tx(txs.last(), u, s, check_sigs) {
                Err(e) => Err(e),
                Ok((s2, fee)) => Ok((s2, fees + fee)),
            },
        }
    }
}

/// The transactions after the coinbase.
pub open spec fn non_coinbase(b: Block) -> Seq<Transaction> {
    if b.transactions@.len() == 0 {
        Seq::empty()
    } else {
        b.transactions@.subrange(1, b.transactions@.len() as int)
    }
}

/// The fees a block pays to its miner, or the first error met while summing them.
pub open spec fn fees_result(b: Block, u: Seq<(Seq<u8>, TransactionOutput)>) -> Result<u64, BtcError> {
    match check_txs(non_coinbase(b), u, false) {
        Err(e) => Err(e),
        Ok((_, f)) => if f <= u64::MAX {
            Ok(f as u64)
        } else {
            Err(BtcError::InvalidTransaction)
        },
    }
}

/// The coinbase rule: no inputs, some outputs, and outputs worth exactly the
/// reward at height `h` plus the block's fees.
pub open spec fn coinbase_result(b: Block, h: u64, u: Seq<(Seq<u8>, TransactionOutput)>) -> Result<(), BtcError> {
    let cb = b.transactions@[0];
    if cb.inputs@.len() != 0 || cb.outputs@.len() == 0 {
        Err(BtcError::InvalidTransaction)
    } else {
        match fees_result(b, u) {
            Err(e) => Err(e),
            Ok(f) => if values_sum(cb.outputs@) != reward(h) + f {
                Err(BtcError::InvalidTransaction)
            } else {
                Ok(())
            },
        }
    }
}

/// All transaction rules of a block at height `h`: some transactions (a block
/// without any is an invalid block), a coinbase first, then every
/// other transaction with signed, unspent, not doubly spent inputs.
pub open spec fn transactions_result(b: Block, h: u64, u: Seq<(Seq<u8>, TransactionOutput)>) -> Result<(), BtcError> {
    if b.transactions@.len() == 0 {
        Err(BtcError::InvalidBlock)
    } else {
        match coinbase_result(b, h, u) {
            Err(e) => Err(e),
            Ok(_) => match check_txs(non_coinbase(b), u, true) {
                Err(e) => Err(e),
                Ok(_) => Ok(()),
            },
        }
    }
}

/// 2^64 - 1.
pub open spec fn max_word() -> int {
    0xFFFF_FFFF_FFFF_FFFF
}

proof fn lemma_values_sum_bound(s: Seq<TransactionOutput>)
    ensures
        0 <= values_sum(s) <= s.len() * max_word(),
    decreases s.len(),
{
    if s.len() > 0 {
        lemma_values_sum_bound(s.drop_last());
    }
}

/// The sum of the values of the outputs.
pub fn sum_values(outs: &Vec<TransactionOutput>) -> (r: u128)
    ensures
        r as int == values_sum(outs@),
{
    let mut total: u128 = 0;
    let mut i: usize = 0;
    while i < outs.len()
        invariant
            0 <= i <= outs@.len(),
            total as int == values_sum(outs@.subrange(0, i as int)),
            total as int <= i * max_word(),
        decreases outs@.len() - i,
    {
        assert(outs@.subrange(0, i + 1).drop_last() =~= outs@.subrange(0, i as int));
        assert(i * max_word() + max_word() <= 0xFFFF_FFFF_FFFF_FFFF * max_word());
        total = total + outs[i].value as u128;
        i = i + 1;
    }
    assert(outs@.subrange(0, i as int) =~= outs@);
    total
}

/// Whether `k` is among the digests.
pub(crate) fn contains_digest(v: &Vec<crate::hash::Hash>, k: &crate::hash::Hash) -> (r: bool)
    ensures
        r == crate::merkle::digests(v@).contains(k@),
{
    let mut i: usize = 0;
    while i < v.len()
        invariant
            0 <= i <= v@.len(),
            forall|j: int| 0 <= j < i ==> v@[j]@ != k@,
        decreases v@.len() - i,
    {
        if v[i].same(k) {
            assert(crate::merkle::digests(v@)[i as int] == k@);
            return true;
        }
        i = i + 1;
    }
    assert(!crate::merkle::digests(v@).contains(k@)) by {
        if crate::merkle::digests(v@).contains(k@) {
            let j = choose|j: int| 0 <= j < v@.len() && crate::merkle::digests(v@)[j] == k@;
            assert(v@[j]@ == k@);
        }
    }
    false
}

proof fn lemma_check_inputs_err(ins: Seq<TransactionInput>, n: int, u: Seq<(Seq<u8>, TransactionOutput)>, spent: Seq<Seq<u8>>, c: bool)
    requires
        0 <= n <= ins.len(),
        check_inputs(ins.subrange(0, n), u, spent, c) is Err,
    ensures
        check_inputs(ins, u, spent, c) == check_inputs(ins.subrange(0, n), u, spent, c),
    decreases ins.len() - n,
{
    if n < ins.len() {
        let s = ins.subrange(0, n + 1);
        assert(s.drop_last() =~= ins.subrange(0, n));
        lemma_check_inputs_err(ins, n + 1, u, spent, c);
    } else {
        assert(ins.subrange(0, n) =~= ins);
    }
}

proof fn lemma_check_txs_err(txs: Seq<Transaction>, n: int, u: Seq<(Seq<u8>, TransactionOutput)>, c: bool)
    requires
        0 <= n <= txs.len(),
        check_txs(txs.subrange(0, n), u, c) is Err,
    ensures
        check_txs(txs, u, c) == check_txs(txs.subrange(0, n), u, c),
    decreases txs.len() - n,
{
    if n < txs.len() {
        let s = txs.subrange(0, n + 1);
        assert(s.drop_last() =~= txs.subrange(0, n));
        lemma_check_txs_err(txs, n + 1, u, c);
    } else {
        assert(txs.subrange(0, n) =~= txs);
    }
}

/// Checks the inputs of one transaction; `spent` gathers the digests referenced.
/// Returns the value of the inputs.
fn run_inputs(
    t: &Transaction,
    utxos: &Vec<UtxoEntry>,
    spent: &mut Vec<crate::hash::Hash>,
    check_sigs: bool,
) -> (r: Result<u128, BtcError>)
    ensures
        match check_inputs(t.inputs@, entries_view(utxos@), crate::merkle::digests(old(spent)@), check_sigs) {
            Err(e) => r == Err::<u128, BtcError>(e),
            Ok((s, sum)) => r == Ok::<u128, BtcError>(sum as u128) && sum == r->Ok_0 as int
                && crate::merkle::digests(final(spent)@) == s,
        },
        r is Ok ==> r->Ok_0 as int <= max_word() * max_word(),
{
    let ghost u = entries_view(utxos@);
    let ghost s0 = crate::merkle::digests(spent@);
    let mut sum: u128 = 0;
    let mut i: usize = 0;
    while i < t.inputs.len()
        invariant
            0 <= i <= t.inputs@.len(),
            u == entries_view(utxos@),
            s0 == crate::merkle::digests(old(spent)@),
            sum as int <= i * max_word(),
            check_inputs(t.inputs@.subrange(0, i as int), u, s0, check_sigs) == Ok::<(Seq<Seq<u8>>, int), BtcError>(
                (crate::merkle::digests(spent@), sum as int)),
        decreases t.inputs@.len() - i,
    {
        let input = t.inputs[i];
        let k = input.prev_transaction_output_hash;
        let ghost pre = t.inputs@.subrange(0, i + 1);
        proof {
            assert(pre.drop_last() =~= t.inputs@.subrange(0, i as int));
            assert(pre.last() == input);
        }
        let found = utxo_get(utxos, &k);
        match found {
            None => {
                proof {
                    lemma_check_inputs_err(t.inputs@, i + 1, u, s0, check_sigs);
                }
                return Err(BtcError::InvalidTransaction);
            },
            Some(o) => {
                if contains_digest(spent, &k) {
                    proof {
                        lemma_check_inputs_err(t.inputs@, i + 1, u, s0, check_sigs);
                    }
                    return Err(BtcError::InvalidTransaction);
                }
                if check_sigs && !input.signature.verify(&k, &o.public_key) {
                    proof {
                        lemma_check_inputs_err(t.inputs@, i + 1, u, s0, check_sigs);
                    }
                    return Err(BtcError::InvalidSignature);
                }
                assert(i * max_word() + max_word() <= 0xFFFF_FFFF_FFFF_FFFF * max_word());
                sum = sum + o.value as u128;
                let ghost old_spent = spent@;
                spent.push(k);
                assert(crate::merkle::digests(spent@) =~= crate::merkle::digests(old_spent).push(k@));
            },
        }
        i = i + 1;
    }
    assert(t.inputs@.subrange(0, i as int) =~= t.inputs@);
    assert(i * max_word() <= max_word() * max_word()) by (nonlinear_arith)
        requires i <= max_word();
    Ok(sum)
}

/// `f`, or 2^64 where `f` is larger.
pub open spec fn capped(f: int) -> int {
    if f < 0x1_0000_0000_0000_0000 {
        f
    } else {
        0x1_0000_0000_0000_0000
    }
}

/// Checks the transactions after the coinbase. Returns their total fee, capped at 2^64.
fn run_txs(b: &Block, utxos: &Vec<UtxoEntry>, check_sigs: bool) -> (r: Result<u128, BtcError>)
    ensures
        check_txs(non_coinbase(*b), entries_view(utxos@), check_sigs) is Err ==> r == Err::<u128, BtcError>(
            check_txs(non_coinbase(*b), entries_view(utxos@), check_sigs)->Err_0),
        check_txs(non_coinbase(*b), entries_view(utxos@), check_sigs) is Ok ==> r == Ok::<u128, BtcError>(
            capped(check_txs(non_coinbase(*b), entries_view(utxos@), check_sigs)->Ok_0.1) as u128),
        check_txs(non_coinbase(*b), entries_view(utxos@), check_sigs) is Ok ==> check_txs(
            non_coinbase(*b), entries_view(utxos@), check_sigs)->Ok_0.1 >= 0,
{
    let ghost u = entries_view(utxos@);
    let ghost nc = non_coinbase(*b);
    let n = b.transactions.len();
    if n == 0 {
        return Ok(0);
    }
    let mut spent: Vec<crate::hash::Hash> = Vec::new();
    let mut fees: u128 = 0;
    let ghost mut total: int = 0;
    let mut t: usize = 1;
    assert(nc.subrange(0, 0) =~= Seq::<Transaction>::empty());
    assert(crate::merkle::digests(spent@) =~= Seq::<Seq<u8>>::empty());
    while t < n
        invariant
            1 <= t <= n,
            n == b.transactions@.len(),
            u == entries_view(utxos@),
            nc == non_coinbase(*b),
            nc.len() == n - 1,
            total >= 0,
            fees as int == capped(total),
            check_txs(nc.subrange(0, t - 1), u, check_sigs) == Ok::<(Seq<Seq<u8>>, int), BtcError>(
                (crate::merkle::digests(spent@), total)),
        decreases n - t,
    {
        let tx = &b.transactions[t];
        let ghost pre = nc.subrange(0, t as int);
        proof {
            assert(pre.drop_last() =~= nc.subrange(0, t - 1));
            assert(pre.last() == *tx);
        }
        let ins = run_inputs(tx, utxos, &mut spent, check_sigs);
        match ins {
            Err(e) => {
                proof {
                    lemma_check_txs_err(nc, t as int, u, check_sigs);
                }
                return Err(e);
            },
            Ok(in_sum) => {
                let out_sum = sum_values(&tx.outputs);
                if in_sum < out_sum {
                    proof {
                        lemma_check_txs_err(nc, t as int, u, check_sigs);
                    }
                    return Err(BtcError::InvalidTransaction);
                }
                let fee = in_sum - out_sum;
                proof {
                    total = total + fee;
                }
                let f = fees + fee;
                fees = if f < 0x1_0000_0000_0000_0000u128 { f } else { 0x1_0000_0000_0000_0000u128 };
            },
        }
        t = t + 1;
    }
    assert(nc.subrange(0, t - 1) =~= nc);
    Ok(fees)
}

proof fn lemma_shr_zero(x: nat, k: nat, m: nat)
    requires
        shr(x, k) == 0,
        k <= m,
    ensures
        shr(x, m) == 0,
    decreases m - k,
{
    if k < m {
        lemma_shr_zero(x, k, (m - 1) as nat);
    }
}

/// The block reward at height `h`.
pub fn block_reward(h: u64) -> (r: u64)
    ensures
        r as nat == reward(h),
{
    let halvings = h / crate::HALVING_INTERVAL;
    let mut r: u64 = crate::INITIAL_REWARD * 100_000_000;
    let mut k: u64 = 0;
    while k < halvings && r > 0
        invariant
            k <= halvings,
            r as nat == shr((crate::INITIAL_REWARD * 100_000_000) as nat, k as nat),
        decreases halvings - k,
    {
        r = r / 2;
        k = k + 1;
    }
    proof {
        if k < halvings {
            lemma_shr_zero((crate::INITIAL_REWARD * 100_000_000) as nat, k as nat, halvings as nat);
        }
    }
    r
}

impl Block {
    /// The fees the block pays to its miner: over the transactions after the
    /// coinbase, the value of the outputs they spend less the value they create.
    /// Fails on an input that is unknown or referenced twice in the block, a
    /// transaction that creates more than it spends, or a total beyond 64 bits.
    pub fn calculate_miner_fees(&self, utxos: &Vec<UtxoEntry>) -> (r: Result<u64, BtcError>)
        ensures
            r == fees_result(*self, entries_view(utxos@)),
    {
        let ghost u = entries_view(utxos@);
        match run_txs(self, utxos, false) {
            Err(e) => Err(e),
            Ok(f) => {
                assert(check_txs(non_coinbase(*self), u, false) is Ok);
                let ghost fs = check_txs(non_coinbase(*self), u, false)->Ok_0.1;
                assert(f as int == capped(fs));
                if f <= 0xFFFF_FFFF_FFFF_FFFFu128 {
                    Ok(f as u64)
                } else {
                    Err(BtcError::InvalidTransaction)
                }
            },
        }
    }

    /// Checks the coinbase of a block at the given height.
    pub fn verify_coinbase_transaction(&self, predicted_block_height: u64, utxos: &Vec<UtxoEntry>) -> (r: Result<(), BtcError>)
        requires
            self.transactions@.len() >= 1,
        ensures
            r == coinbase_result(*self, predicted_block_height, entries_view(utxos@)),
    {
        let cb = &self.transactions[0];
        if cb.inputs.len() != 0 {
            return Err(BtcError::InvalidTransaction);
        }
        if cb.outputs.len() == 0 {
            return Err(BtcError::InvalidTransaction);
        }
        let fees = self.calculate_miner_fees(utxos);
        match fees {
            Err(e) => Err(e),
            Ok(f) => {
                let reward = block_reward(predicted_block_height);
                let total = sum_values(&cb.outputs);
                if total != reward as u128 + f as u128 {
                    Err(BtcError::InvalidTransaction)
                } else {
                    Ok(())
                }
            },
        }
    }

    /// Checks every transaction of a block at the given height against the
    /// unspent outputs: the coinbase rule, then each later input is unspent,
    /// not referenced twice in the block, and signed by the key of the output
    /// it spends, and no transaction creates more value than it spends.
    pub fn verify_transactions(&self, predicted_block_height: u64, utxos: &Vec<UtxoEntry>) -> (r: Result<(), BtcError>)
        ensures
            r == transactions_result(*self, predicted_block_height, entries_view(utxos@)),
    {
        if self.transactions.len() == 0 {
            return Err(BtcError::InvalidBlock);
        }
        match self.verify_coinbase_transaction(predicted_block_height, utxos) {
            Err(e) => Err(e),
            Ok(_) => match run_txs(self, utxos, true) {
                Err(e) => Err(e),
                Ok(_) => Ok(()),
            },
        }
    }
}


/// The digests referenced by a list of inputs, in order.
pub open spec fn input_keys(ins: Seq<TransactionInput>) -> Seq<Seq<u8>> {
    Seq::new(ins.len(), |j: int| ins[j].prev_transaction_output_hash@)
}

/// The digests referenced by the inputs of a list of transactions, in order.
pub open spec fn txs_input_keys(txs: Seq<Transaction>) -> Seq<Seq<u8>>
    decreases txs.len(),
{
    if txs.len() == 0 {
        Seq::empty()
    } else {
        txs_input_keys(txs.drop_last()) + input_keys(txs.last().inputs@)
    }
}

proof fn lemma_check_inputs_keys(
    ins: Seq<TransactionInput>,
    u: Seq<(Seq<u8>, TransactionOutput)>,
    spent: Seq<Seq<u8>>,
    c: bool,
)
    requires
        check_inputs(ins, u, spent, c) is Ok,
        spent.no_duplicates(),
    ensures
        check_inputs(ins, u, spent, c)->Ok_0.0 == spent + input_keys(ins),
        check_inputs(ins, u, spent, c)->Ok_0.0.no_duplicates(),
    decreases ins.len(),
{
    if ins.len() == 0 {
        assert(spent + input_keys(ins) =~= spent);
    } else {
        lemma_check_inputs_keys(ins.drop_last(), u, spent, c);
        assert(input_keys(ins) =~= input_keys(ins.drop_last()).push(ins.last().prev_transaction_output_hash@));
        assert(spent + input_keys(ins) =~= (spent + input_keys(ins.drop_last())).push(
            ins.last().prev_transaction_output_hash@));
    }
}

proof fn lemma_check_txs_keys(txs: Seq<Transaction>, u: Seq<(Seq<u8>, TransactionOutput)>, c: bool)
    requires
        check_txs(txs, u, c) is Ok,
    ensures
        check_txs(txs, u, c)->Ok_0.0 == txs_input_keys(txs),
        txs_input_keys(txs).no_duplicates(),
    decreases txs.len(),
{
    if txs.len() > 0 {
        lemma_check_txs_keys(txs.drop_last(), u, c);
        let s = check_txs(txs.drop_last(), u, c)->Ok_0.0;
        lemma_check_inputs_keys(txs.last().inputs@, u, s, c);
    }
}

/// A block that meets the transaction rules never references the same output
/// twice from the inputs of its transactions after the coinbase.
pub proof fn lemma_no_double_spend_in_block(b: Block, h: u64, u: Seq<(Seq<u8>, TransactionOutput)>)
    requires
        transactions_result(b, h, u) is Ok,
    ensures
        txs_input_keys(non_coinbase(b)).no_duplicates(),
{
    lemma_check_txs_keys(non_coinbase(b), u, true);
}


proof fn lemma_inputs_found(ins: Seq<TransactionInput>, u: Seq<(Seq<u8>, TransactionOutput)>, spent: Seq<Seq<u8>>, c: bool, j: int)
    requires
        check_inputs(ins, u, spent, c) is Ok,
        0 <= j < ins.len(),
    ensures
        present(u, ins[j].prev_transaction_output_hash@),
    decreases ins.len(),
{
    if j < ins.len() - 1 {
        lemma_inputs_found(ins.drop_last(), u, spent, c, j);
        assert(ins.drop_last()[j] == ins[j]);
    }
}

proof fn lemma_txs_found(txs: Seq<Transaction>, u: Seq<(Seq<u8>, TransactionOutput)>, c: bool, t: int, j: int)
    requires
        check_txs(txs, u, c) is Ok,
        0 <= t < txs.len(),
        0 <= j < txs[t].inputs@.len(),
    ensures
        present(u, txs[t].inputs@[j].prev_transaction_output_hash@),
    decreases txs.len(),
{
    if t < txs.len() - 1 {
        lemma_txs_found(txs.drop_last(), u, c, t, j);
        assert(txs.drop_last()[t] == txs[t]);
    } else {
        let s = check_txs(txs.drop_last(), u, c)->Ok_0.0;
        lemma_inputs_found(txs.last().inputs@, u, s, c, j);
    }
}

/// Every output that a block meeting the transaction rules spends was unspent before it.
pub proof fn lemma_spent_was_present(b: Block, h: u64, u: Seq<(Seq<u8>, TransactionOutput)>, k: Seq<u8>)
    requires
        transactions_result(b, h, u) is Ok,
        spends(b, k),
    ensures
        present(u, k),
{
    let (t, j) = choose|t: int, j: int|
        1 <= t < b.transactions@.len() && 0 <= j < b.transactions@[t].inputs@.len()
            && b.transactions@[t].inputs@[j].prev_transaction_output_hash@ == k;
    assert(non_coinbase(b)[t - 1] == b.transactions@[t]);
    lemma_txs_found(non_coinbase(b), u, true, t - 1, j);
}

} // verus!
