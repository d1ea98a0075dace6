//! The set of unspent outputs, as a list of (output digest, output) entries
//! in which each digest occurs at most once.
use vstd::prelude::*;
use crate::types::{output_hash, Block, Transaction, TransactionInput, TransactionOutput};

verus! {

/// An entry of the unspent-output set as stored.
pub type UtxoEntry = (crate::hash::Hash, TransactionOutput);

/// The entries with each digest replaced by its bytes.
pub open spec fn entries_view(v: Seq<UtxoEntry>) -> Seq<(Seq<u8>, TransactionOutput)> {
    Seq::new(v.len(), |i: int| (v[i].0@, v[i].1))
}

/// The output stored under `k`, if any (the latest entry wins).
pub open spec fn lookup(u: Seq<(Seq<u8>, TransactionOutput)>, k: Seq<u8>) -> Option<TransactionOutput>
    decreases u.len(),
{
    if u.len() == 0 {
        None
    } else if u.last().0 == k {
        Some(u.last().1)
    } else {
        lookup(u.drop_last(), k)
    }
}

/// The set without the entries stored under `k`, order kept.
pub open spec fn remove_key(u: Seq<(Seq<u8>, TransactionOutput)>, k: Seq<u8>) -> Seq<(Seq<u8>, TransactionOutput)>
    decreases u.len(),
{
    if u.len() == 0 {
        u
    } else if u.last().0 == k {
        remove_key(u.drop_last(), k)
    } else {
        remove_key(u.drop_last(), k).push(u.last())
    }
}

/// The set with `o` stored under its own digest, replacing any earlier entry there.
pub open spec fn insert_output(u: Seq<(Seq<u8>, TransactionOutput)>, o: TransactionOutput) -> Seq<(Seq<u8>, TransactionOutput)> {
    remove_key(u, output_hash(o)).push((output_hash(o), o))
}

/// The set after each input has spent the entry it references.
pub open spec fn spend_inputs(u: Seq<(Seq<u8>, TransactionOutput)>, ins: Seq<TransactionInput>) -> Seq<(Seq<u8>, TransactionOutput)>
    decreases ins.len(),
{
    if ins.len() == 0 {
        u
    } else {
        remove_key(spend_inputs(u, ins.drop_last()), ins.last().prev_transaction_output_hash@)
    }
}

/// The set after each output has been added.
pub open spec fn add_outputs(u: Seq<(Seq<u8>, TransactionOutput)>, outs: Seq<TransactionOutput>) -> Seq<(Seq<u8>, TransactionOutput)>
    decreases outs.len(),
{
    if outs.len() == 0 {
        u
    } else {
        insert_output(add_outputs(u, outs.drop_last()), outs.last())
    }
}

/// The effect of one transaction; the coinbase spends nothing.
pub open spec fn apply_tx(u: Seq<(Seq<u8>, TransactionOutput)>, t: Transaction, coinbase: bool) -> Seq<(Seq<u8>, TransactionOutput)> {
    add_outputs(if coinbase { u } else { spend_inputs(u, t.inputs@) }, t.outputs@)
}

/// The effect of the first `n` transactions of a block.
pub open spec fn apply_prefix(u: Seq<(Seq<u8>, TransactionOutput)>, txs: Seq<Transaction>, n: nat) -> Seq<(Seq<u8>, TransactionOutput)>
    decreases n,
{
    if n == 0 {
        u
    } else {
        apply_tx(apply_prefix(u, txs, (n - 1) as nat), txs[n - 1], n == 1)
    }
}

/// The effect of a whole block.
pub open spec fn apply_block(u: Seq<(Seq<u8>, TransactionOutput)>, b: Block) -> Seq<(Seq<u8>, TransactionOutput)> {
    apply_prefix(u, b.transactions@, b.transactions@.len())
}

/// The unspent outputs left by a sequence of blocks applied in order to an empty set.
pub open spec fn utxo_after(blocks: Seq<Block>) -> Seq<(Seq<u8>, TransactionOutput)>
    decreases blocks.len(),
{
    if blocks.len() == 0 {
        Seq::empty()
    } else {
        apply_block(utxo_after(blocks.drop_last()), blocks.last())
    }
}

proof fn lemma_view_push(v: Seq<UtxoEntry>, e: UtxoEntry)
    ensures
        entries_view(v.push(e)) == entries_view(v).push((e.0@, e.1)),
{
    assert(entries_view(v.push(e)) =~= entries_view(v).push((e.0@, e.1)));
}

/// The output stored under `k`, if any.
pub fn utxo_get(u: &Vec<UtxoEntry>, k: &crate::hash::Hash) -> (r: Option<TransactionOutput>)
    ensures
        r == lookup(entries_view(u@), k@),
{
    let mut r: Option<TransactionOutput> = None;
    let mut i: usize = 0;
    while i < u.len()
        invariant
            0 <= i <= u@.len(),
            r == lookup(entries_view(u@.subrange(0, i as int)), k@),
        decreases u@.len() - i,
    {
        let e = u[i];
        if e.0.same(k) {
            r = Some(e.1);
        }
        proof {
            let s = u@.subrange(0, i + 1);
            assert(s.drop_last() =~= u@.subrange(0, i as int));
            assert(entries_view(s).drop_last() =~= entries_view(s.drop_last()));
        }
        i = i + 1;
    }
    assert(u@.subrange(0, i as int) =~= u@);
    r
}

/// Removes the entries stored under `k`.
pub fn utxo_remove(u: &mut Vec<UtxoEntry>, k: &crate::hash::Hash)
    ensures
        entries_view(final(u)@) == remove_key(entries_view(old(u)@), k@),
{
    let mut kept: Vec<UtxoEntry> = Vec::new();
    let mut i: usize = 0;
    while i < u.len()
        invariant
            0 <= i <= u@.len(),
            u@ == old(u)@,
            entries_view(kept@) == remove_key(entries_view(u@.subrange(0, i as int)), k@),
        decreases u@.len() - i,
    {
        let e = u[i];
        proof {
            let s = u@.subrange(0, i + 1);
            assert(s.drop_last() =~= u@.subrange(0, i as int));
            assert(entries_view(s).drop_last() =~= entries_view(s.drop_last()));
            lemma_view_push(kept@, e);
        }
        if !e.0.same(k) {
            kept.push(e);
        }
        i = i + 1;
    }
    assert(u@.subrange(0, i as int) =~= u@);
    *u = kept;
}

/// Stores `o` under its digest, replacing any earlier entry there.
pub fn utxo_insert(u: &mut Vec<UtxoEntry>, o: TransactionOutput)
    ensures
        entries_view(final(u)@) == insert_output(entries_view(old(u)@), o),
{
    let k = o.hash();
    utxo_remove(u, &k);
    proof {
        lemma_view_push(u@, (k, o));
    }
    u.push((k, o));
}

/// Applies the effect of a block to the set.
pub fn utxo_apply_block(u: &mut Vec<UtxoEntry>, b: &Block)
    ensures
        entries_view(final(u)@) == apply_block(entries_view(old(u)@), *b),
{
    let ghost u0 = entries_view(u@);
    let mut t: usize = 0;
    while t < b.transactions.len()
        invariant
            0 <= t <= b.transactions@.len(),
            u0 == entries_view(old(u)@),
            entries_view(u@) == apply_prefix(u0, b.transactions@, t as nat),
        decreases b.transactions@.len() - t,
    {
        let tx = &b.transactions[t];
        let ghost before = entries_view(u@);
        if t > 0 {
            let mut i: usize = 0;
            while i < tx.inputs.len()
                invariant
                    0 <= i <= tx.inputs@.len(),
                    entries_view(u@) == spend_inputs(before, tx.inputs@.subrange(0, i as int)),
                decreases tx.inputs@.len() - i,
            {
                utxo_remove(u, &tx.inputs[i].prev_transaction_output_hash);
                proof {
                    let s = tx.inputs@.subrange(0, i + 1);
                    assert(s.drop_last() =~= tx.inputs@.subrange(0, i as int));
                }
                i = i + 1;
            }
            assert(tx.inputs@.subrange(0, i as int) =~= tx.inputs@);
        }
        let ghost spent = entries_view(u@);
        let mut j: usize = 0;
        while j < tx.outputs.len()
            invariant
                0 <= j <= tx.outputs@.len(),
                entries_view(u@) == add_outputs(spent, tx.outputs@.subrange(0, j as int)),
            decreases tx.outputs@.len() - j,
        {
            utxo_insert(u, tx.outputs[j]);
            proof {
                let s = tx.outputs@.subrange(0, j + 1);
                assert(s.drop_last() =~= tx.outputs@.subrange(0, j as int));
            }
            j = j + 1;
        }
        assert(tx.outputs@.subrange(0, j as int) =~= tx.outputs@);
        t = t + 1;
    }
}


/// Whether some output is stored under `k`.
pub open spec fn present(u: Seq<(Seq<u8>, TransactionOutput)>, k: Seq<u8>) -> bool {
    lookup(u, k) is Some
}

/// Whether some transaction of the block creates an output with digest `k`.
pub open spec fn creates(b: Block, k: Seq<u8>) -> bool {
    exists|t: int, j: int|
        0 <= t < b.transactions@.len() && 0 <= j < b.transactions@[t].outputs@.len()
            && output_hash(b.transactions@[t].outputs@[j]) == k
}

/// Whether some input of a transaction after the coinbase references `k`.
pub open spec fn spends(b: Block, k: Seq<u8>) -> bool {
    exists|t: int, j: int|
        1 <= t < b.transactions@.len() && 0 <= j < b.transactions@[t].inputs@.len()
            && b.transactions@[t].inputs@[j].prev_transaction_output_hash@ == k
}

proof fn lemma_lookup_push(r: Seq<(Seq<u8>, TransactionOutput)>, e: (Seq<u8>, TransactionOutput), k: Seq<u8>)
    ensures
        lookup(r.push(e), k) == if e.0 == k { Some(e.1) } else { lookup(r, k) },
{
    assert(r.push(e).drop_last() =~= r);
}

proof fn lemma_remove_present(u: Seq<(Seq<u8>, TransactionOutput)>, k: Seq<u8>, k2: Seq<u8>)
    ensures
        !present(remove_key(u, k), k),
        present(remove_key(u, k), k2) ==> present(u, k2),
    decreases u.len(),
{
    if u.len() > 0 {
        lemma_remove_present(u.drop_last(), k, k2);
        let r = remove_key(u.drop_last(), k);
        lemma_lookup_push(r, u.last(), k);
        lemma_lookup_push(r, u.last(), k2);
        lemma_lookup_push(u.drop_last(), u.last(), k2);
        assert(u.drop_last().push(u.last()) =~= u);
    }
}

proof fn lemma_spend_present(u: Seq<(Seq<u8>, TransactionOutput)>, ins: Seq<TransactionInput>, k: Seq<u8>)
    ensures
        present(spend_inputs(u, ins), k) ==> present(u, k),
        (exists|j: int| 0 <= j < ins.len() && ins[j].prev_transaction_output_hash@ == k) ==> !present(
            spend_inputs(u, ins),
            k,
        ),
    decreases ins.len(),
{
    if ins.len() > 0 {
        let d = ins.drop_last();
        lemma_spend_present(u, d, k);
        lemma_remove_present(spend_inputs(u, d), ins.last().prev_transaction_output_hash@, k);
        if exists|j: int| 0 <= j < ins.len() && ins[j].prev_transaction_output_hash@ == k {
            let j = choose|j: int| 0 <= j < ins.len() && ins[j].prev_transaction_output_hash@ == k;
            if j < ins.len() - 1 {
                assert(d[j] == ins[j]);
            }
        }
    }
}

proof fn lemma_add_present(u: Seq<(Seq<u8>, TransactionOutput)>, outs: Seq<TransactionOutput>, k: Seq<u8>)
    ensures
        present(add_outputs(u, outs), k) ==> present(u, k) || exists|j: int|
            0 <= j < outs.len() && output_hash(outs[j]) == k,
    decreases outs.len(),
{
    if outs.len() > 0 {
        let d = outs.drop_last();
        lemma_add_present(u, d, k);
        let a = add_outputs(u, d);
        let o = outs.last();
        lemma_remove_present(a, output_hash(o), k);
        lemma_lookup_push(remove_key(a, output_hash(o)), (output_hash(o), o), k);
        if present(add_outputs(u, outs), k) && !present(u, k) {
            if output_hash(o) == k {
                assert(output_hash(outs[outs.len() - 1]) == k);
            } else {
                let j = choose|j: int| 0 <= j < d.len() && output_hash(d[j]) == k;
                assert(outs[j] == d[j]);
            }
        }
    }
}

/// The effect of the first `n` transactions of a block on whether `k` is stored.
proof fn lemma_prefix_present(u: Seq<(Seq<u8>, TransactionOutput)>, txs: Seq<Transaction>, n: int, k: Seq<u8>)
    requires
        0 <= n <= txs.len(),
    ensures
        present(apply_prefix(u, txs, n as nat), k) ==> present(u, k) || exists|t: int, j: int|
            0 <= t < n && 0 <= j < txs[t].outputs@.len() && output_hash(txs[t].outputs@[j]) == k,
        (exists|t: int, j: int|
            1 <= t < n && 0 <= j < txs[t].inputs@.len() && txs[t].inputs@[j].prev_transaction_output_hash@ == k)
            && !(exists|t: int, j: int|
            0 <= t < n && 0 <= j < txs[t].outputs@.len() && output_hash(txs[t].outputs@[j]) == k)
            ==> !present(apply_prefix(u, txs, n as nat), k),
    decreases n,
{
    if n > 0 {
        lemma_prefix_present(u, txs, n - 1, k);
        let before = apply_prefix(u, txs, (n - 1) as nat);
        let tx = txs[n - 1];
        let mid = if n == 1 { before } else { spend_inputs(before, tx.inputs@) };
        lemma_spend_present(before, tx.inputs@, k);
        lemma_add_present(mid, tx.outputs@, k);
        let after = apply_prefix(u, txs, n as nat);
        assert(after == add_outputs(mid, tx.outputs@));
        if present(after, k) && !present(u, k) {
            if exists|j: int| 0 <= j < tx.outputs@.len() && output_hash(tx.outputs@[j]) == k {
                let j = choose|j: int| 0 <= j < tx.outputs@.len() && output_hash(tx.outputs@[j]) == k;
                assert(0 <= n - 1 < n && 0 <= j < txs[n - 1].outputs@.len() && output_hash(txs[n - 1].outputs@[j]) == k);
            } else {
                assert(present(mid, k));
                assert(present(before, k));
            }
        }
        if (exists|t: int, j: int|
            1 <= t < n && 0 <= j < txs[t].inputs@.len() && txs[t].inputs@[j].prev_transaction_output_hash@ == k)
            && !(exists|t: int, j: int|
            0 <= t < n && 0 <= j < txs[t].outputs@.len() && output_hash(txs[t].outputs@[j]) == k) {
            let (t, j) = choose|t: int, j: int|
                1 <= t < n && 0 <= j < txs[t].inputs@.len() && txs[t].inputs@[j].prev_transaction_output_hash@ == k;
            assert(!exists|j2: int| 0 <= j2 < tx.outputs@.len() && output_hash(tx.outputs@[j2]) == k) by {
                if exists|j2: int| 0 <= j2 < tx.outputs@.len() && output_hash(tx.outputs@[j2]) == k {
                    let j2 = choose|j2: int| 0 <= j2 < tx.outputs@.len() && output_hash(tx.outputs@[j2]) == k;
                    assert(0 <= n - 1 < n && 0 <= j2 < txs[n - 1].outputs@.len());
                }
            }
            if t < n - 1 {
                assert(!present(before, k));
            } else {
                assert(tx.inputs@[j].prev_transaction_output_hash@ == k);
            }
            assert(!present(mid, k));
        }
    }
}

/// Committing a block keeps an output digest absent unless the block creates
/// it, and removes every digest its inputs reference that it does not create.
pub proof fn lemma_block_present(u: Seq<(Seq<u8>, TransactionOutput)>, b: Block, k: Seq<u8>)
    ensures
        present(apply_block(u, b), k) ==> present(u, k) || creates(b, k),
        spends(b, k) && !creates(b, k) ==> !present(apply_block(u, b), k),
{
    lemma_prefix_present(u, b.transactions@, b.transactions@.len() as int, k);
}

} // verus!
