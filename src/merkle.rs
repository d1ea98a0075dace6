//! The Merkle commitment to the ordered transactions of a block.
use vstd::prelude::*;
use crate::encode::push_slice;
use crate::hash::sha256_of;
use crate::types::{tx_hash, Transaction};

verus! {

/// The root of the Merkle tree over a block's transactions.
#[derive(Debug, Clone, Copy, PartialEq, Eq)]
pub struct MerkleRoot(pub crate::hash::Hash);

impl View for MerkleRoot {
    type V = Seq<u8>;

    open spec fn view(&self) -> Seq<u8> {
        self.0@
    }
}

/// The digest of two digests side by side.
pub open spec fn pair_hash(l: Seq<u8>, r: Seq<u8>) -> Seq<u8> {
    sha256_of(l + r)
}

/// One level up the tree: consecutive pairs are hashed together, and an
/// unpaired last digest is paired with itself.
pub open spec fn next_level(l: Seq<Seq<u8>>) -> Seq<Seq<u8>> {
    Seq::new(
        ((l.len() + 1) / 2) as nat,
        |i: int| pair_hash(l[2 * i], if 2 * i + 1 < l.len() { l[2 * i + 1] } else { l[2 * i] }),
    )
}

/// The single digest that remains once levels are folded up.
pub open spec fn merkle_of_level(l: Seq<Seq<u8>>) -> Seq<u8>
    decreases l.len(),
{
    if l.len() <= 1 {
        l[0]
    } else {
        merkle_of_level(next_level(l))
    }
}

/// The Merkle root of an ordered list of transactions.
pub open spec fn merkle_root_of(txs: Seq<Transaction>) -> Seq<u8> {
    merkle_of_level(leaf_digests(txs))
}

/// The digests of the transactions, in order.
pub open spec fn leaf_digests(txs: Seq<Transaction>) -> Seq<Seq<u8>> {
    Seq::new(txs.len(), |i: int| tx_hash(txs[i]))
}

/// The views of a list of digests.
pub open spec fn digests(v: Seq<crate::hash::Hash>) -> Seq<Seq<u8>> {
    Seq::new(v.len(), |i: int| v[i]@)
}

fn hash_pair(l: &crate::hash::Hash, r: &crate::hash::Hash) -> (h: crate::hash::Hash)
    ensures
        h@ == pair_hash(l@, r@),
{
    let mut out: Vec<u8> = Vec::new();
    push_slice(&mut out, l.bytes.as_slice());
    push_slice(&mut out, r.bytes.as_slice());
    assert(out@ =~= l@ + r@);
    crate::hash::Hash::hash(out.as_slice())
}

fn fold_level(layer: &Vec<crate::hash::Hash>) -> (r: Vec<crate::hash::Hash>)
    requires
        layer@.len() >= 1,
    ensures
        digests(r@) == next_level(digests(layer@)),
{
    let n = layer.len();
    let m = n / 2 + n % 2;
    let ghost target = next_level(digests(layer@));
    let mut next: Vec<crate::hash::Hash> = Vec::new();
    let mut k: usize = 0;
    while k < m
        invariant
            n == layer@.len(),
            m == (n + 1) / 2,
            0 <= k <= m,
            target == next_level(digests(layer@)),
            next@.len() == k,
            digests(next@) == target.subrange(0, k as int),
        decreases m - k,
    {
        let left = layer[2 * k];
        let right = if 2 * k + 1 < n {
            layer[2 * k + 1]
        } else {
            layer[2 * k]
        };
        let h = hash_pair(&left, &right);
        let ghost d = digests(layer@);
        assert(d[2 * k as int] == left@);
        assert(2 * k + 1 < n ==> d[2 * k + 1] == right@);
        assert(2 * k + 1 >= n ==> right@ == d[2 * k as int]);
        assert(h@ == target[k as int]);
        let ghost old_next = next@;
        next.push(h);
        assert(next@ == old_next.push(h));
        k = k + 1;
        assert(digests(next@) =~= target.subrange(0, k as int)) by {
            assert forall|j: int| 0 <= j < k implies #[trigger] digests(next@)[j] == target[j] by {
                if j < k - 1 {
                    assert(digests(old_next)[j] == target.subrange(0, k - 1)[j]);
                    assert(digests(old_next)[j] == old_next[j]@);
                    assert(next@[j] == old_next[j]);
                } else {
                    assert(next@[j] == h);
                }
            }
        }
    }
    assert(target.subrange(0, m as int) =~= target);
    next
}

/// The digests of the transactions, in order.
pub fn transaction_digests(transactions: &[Transaction]) -> (r: Vec<crate::hash::Hash>)
    ensures
        digests(r@) == leaf_digests(transactions@),
        r@.len() == transactions@.len(),
{
    let ghost leaves = leaf_digests(transactions@);
    let mut layer: Vec<crate::hash::Hash> = Vec::new();
    let mut i: usize = 0;
    while i < transactions.len()
        invariant
            0 <= i <= transactions@.len(),
            leaves == leaf_digests(transactions@),
            layer@.len() == i,
            digests(layer@) == leaves.subrange(0, i as int),
        decreases transactions@.len() - i,
    {
        let h = transactions[i].hash();
        let ghost old_layer = layer@;
        layer.push(h);
        assert(layer@ == old_layer.push(h));
        i = i + 1;
        assert(digests(layer@) =~= leaves.subrange(0, i as int)) by {
            assert forall|j: int| 0 <= j < i implies #[trigger] digests(layer@)[j] == leaves[j] by {
                if j < i - 1 {
                    assert(digests(old_layer)[j] == leaves.subrange(0, i - 1)[j]);
                    assert(layer@[j] == old_layer[j]);
                } else {
                    assert(layer@[j] == h);
                }
            }
        }
    }
    assert(leaves.subrange(0, i as int) =~= leaves);
    layer
}

impl MerkleRoot {
    /// The Merkle root of the ordered, nonempty list of transactions.
    pub fn calculate(transactions: &[Transaction]) -> (r: MerkleRoot)
        requires
            transactions@.len() >= 1,
        ensures
            r@ == merkle_root_of(transactions@),
    {
        let mut layer = transaction_digests(transactions);
        while layer.len() > 1
            invariant
                layer@.len() >= 1,
                merkle_of_level(digests(layer@)) == merkle_root_of(transactions@),
            decreases layer@.len(),
        {
            let ghost d = digests(layer@);
            layer = fold_level(&layer);
            assert(merkle_of_level(d) == merkle_of_level(next_level(d)));
        }
        MerkleRoot(layer[0])
    }
}


/// The Merkle root depends only on the ordered digests of the transactions.
pub proof fn lemma_merkle_depends_on_digests(a: Seq<Transaction>, b: Seq<Transaction>)
    requires
        leaf_digests(a) == leaf_digests(b),
    ensures
        merkle_root_of(a) == merkle_root_of(b),
{
}

} // verus!
