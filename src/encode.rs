//! The canonical byte encoding that digests are taken over: fields in
//! declaration order, integers big-endian, sequences prefixed by their length.
use vstd::prelude::*;
use crate::types::{Block, BlockHeader, Transaction, TransactionInput, TransactionOutput};
use crate::u256::U256;

verus! {

/// Eight big-endian bytes of a word.
pub open spec fn u64_be(x: u64) -> Seq<u8> {
    seq![
        (x / 0x100_0000_0000_0000) as u8,
        ((x / 0x1_0000_0000_0000) % 256) as u8,
        ((x / 0x100_0000_0000) % 256) as u8,
        ((x / 0x1_0000_0000) % 256) as u8,
        ((x / 0x100_0000) % 256) as u8,
        ((x / 0x1_0000) % 256) as u8,
        ((x / 0x100) % 256) as u8,
        (x % 256) as u8,
    ]
}

/// A signed time as the word with the same two's-complement bits.
pub open spec fn ts_word(t: i64) -> u64 {
    if t >= 0 {
        t as u64
    } else {
        (t + 0x1_0000_0000_0000_0000) as u64
    }
}

/// Sixteen big-endian bytes.
pub open spec fn u128_be(x: u128) -> Seq<u8> {
    u64_be((x / 0x1_0000_0000_0000_0000) as u64) + u64_be((x % 0x1_0000_0000_0000_0000) as u64)
}

/// Thirty-two big-endian bytes.
pub open spec fn u256_be(t: U256) -> Seq<u8> {
    u64_be(t.0[3]) + u64_be(t.0[2]) + u64_be(t.0[1]) + u64_be(t.0[0])
}

/// The length prefix of a sequence.
pub open spec fn len_prefix(n: int) -> Seq<u8> {
    u64_be(n as u64)
}

/// An output: value, unique id, public key.
pub open spec fn output_bytes(o: TransactionOutput) -> Seq<u8> {
    u64_be(o.value) + u128_be(o.unique_id) + o.public_key@
}

/// An input: referenced digest, signature.
pub open spec fn input_bytes(i: TransactionInput) -> Seq<u8> {
    i.prev_transaction_output_hash@ + i.signature@
}

/// Inputs one after another.
pub open spec fn inputs_bytes(s: Seq<TransactionInput>) -> Seq<u8>
    decreases s.len(),
{
    if s.len() == 0 {
        Seq::empty()
    } else {
        inputs_bytes(s.drop_last()) + input_bytes(s.last())
    }
}

/// Outputs one after another.
pub open spec fn outputs_bytes(s: Seq<TransactionOutput>) -> Seq<u8>
    decreases s.len(),
{
    if s.len() == 0 {
        Seq::empty()
    } else {
        outputs_bytes(s.drop_last()) + output_bytes(s.last())
    }
}

/// A transaction: its inputs, then its outputs, each list with its length.
pub open spec fn tx_bytes(t: Transaction) -> Seq<u8> {
    len_prefix(t.inputs@.len() as int) + inputs_bytes(t.inputs@) + len_prefix(t.outputs@.len() as int)
        + outputs_bytes(t.outputs@)
}

/// Transactions one after another.
pub open spec fn txs_bytes(s: Seq<Transaction>) -> Seq<u8>
    decreases s.len(),
{
    if s.len() == 0 {
        Seq::empty()
    } else {
        txs_bytes(s.drop_last()) + tx_bytes(s.last())
    }
}

/// A header: timestamp, nonce, previous digest, Merkle root, target.
pub open spec fn header_bytes(h: BlockHeader) -> Seq<u8> {
    u64_be(ts_word(h.timestamp)) + u64_be(h.nonce) + h.prev_block_hash@ + h.merkle_root@ + u256_be(
        h.target,
    )
}

/// A block: its header, then its transactions with their number.
pub open spec fn block_bytes(b: Block) -> Seq<u8> {
    header_bytes(b.header) + len_prefix(b.transactions@.len() as int) + txs_bytes(b.transactions@)
}

/// Blocks one after another.
pub open spec fn blocks_bytes(s: Seq<Block>) -> Seq<u8>
    decreases s.len(),
{
    if s.len() == 0 {
        Seq::empty()
    } else {
        blocks_bytes(s.drop_last()) + block_bytes(s.last())
    }
}

/// An unspent-output entry: digest, then output.
pub open spec fn entry_bytes(e: (crate::hash::Hash, TransactionOutput)) -> Seq<u8> {
    e.0@ + output_bytes(e.1)
}

/// Unspent-output entries one after another.
pub open spec fn entries_bytes(s: Seq<(crate::hash::Hash, TransactionOutput)>) -> Seq<u8>
    decreases s.len(),
{
    if s.len() == 0 {
        Seq::empty()
    } else {
        entries_bytes(s.drop_last()) + entry_bytes(s.last())
    }
}

/// Appends the bytes of a slice.
pub fn push_slice(out: &mut Vec<u8>, s: &[u8])
    ensures
        final(out)@ == old(out)@ + s@,
{
    let mut i: usize = 0;
    while i < s.len()
        invariant
            0 <= i <= s@.len(),
            out@ == old(out)@ + s@.subrange(0, i as int),
        decreases s@.len() - i,
    {
        out.push(s[i]);
        i = i + 1;
        assert(out@ =~= old(out)@ + s@.subrange(0, i as int));
    }
    assert(s@.subrange(0, s@.len() as int) =~= s@);
}

/// Appends the eight big-endian bytes of a word.
pub fn push_u64(out: &mut Vec<u8>, x: u64)
    ensures
        final(out)@ == old(out)@ + u64_be(x),
{
    out.push((x / 0x100_0000_0000_0000) as u8);
    out.push(((x / 0x1_0000_0000_0000) % 256) as u8);
    out.push(((x / 0x100_0000_0000) % 256) as u8);
    out.push(((x / 0x1_0000_0000) % 256) as u8);
    out.push(((x / 0x100_0000) % 256) as u8);
    out.push(((x / 0x1_0000) % 256) as u8);
    out.push(((x / 0x100) % 256) as u8);
    out.push((x % 256) as u8);
    assert(out@ =~= old(out)@ + u64_be(x));
}

/// Appends the sixteen big-endian bytes of `x`.
pub fn push_u128(out: &mut Vec<u8>, x: u128)
    ensures
        final(out)@ == old(out)@ + u128_be(x),
{
    push_u64(out, (x / 0x1_0000_0000_0000_0000) as u64);
    push_u64(out, (x % 0x1_0000_0000_0000_0000) as u64);
    assert(out@ =~= old(out)@ + u128_be(x));
}

/// Appends the thirty-two big-endian bytes of `t`.
pub fn push_u256(out: &mut Vec<u8>, t: &U256)
    ensures
        final(out)@ == old(out)@ + u256_be(*t),
{
    push_u64(out, t.0[3]);
    push_u64(out, t.0[2]);
    push_u64(out, t.0[1]);
    push_u64(out, t.0[0]);
    assert(out@ =~= old(out)@ + u256_be(*t));
}

/// Appends the length prefix of a sequence of `n` items.
pub fn push_len(out: &mut Vec<u8>, n: usize)
    ensures
        final(out)@ == old(out)@ + len_prefix(n as int),
{
    push_u64(out, n as u64);
}

/// Appends the encoding of an output.
pub fn push_output(out: &mut Vec<u8>, o: &TransactionOutput)
    ensures
        final(out)@ == old(out)@ + output_bytes(*o),
{
    push_u64(out, o.value);
    push_u128(out, o.unique_id);
    push_slice(out, o.public_key.bytes.as_slice());
    assert(out@ =~= old(out)@ + output_bytes(*o));
}

/// Appends the encoding of an input.
pub fn push_input(out: &mut Vec<u8>, i: &TransactionInput)
    ensures
        final(out)@ == old(out)@ + input_bytes(*i),
{
    push_slice(out, i.prev_transaction_output_hash.bytes.as_slice());
    push_slice(out, i.signature.bytes.as_slice());
    assert(out@ =~= old(out)@ + input_bytes(*i));
}

/// Appends the encoding of a transaction.
pub fn push_transaction(out: &mut Vec<u8>, t: &Transaction)
    ensures
        final(out)@ == old(out)@ + tx_bytes(*t),
{
    let start = Ghost(out@);
    push_len(out, t.inputs.len());
    let mid = Ghost(out@);
    let mut i: usize = 0;
    while i < t.inputs.len()
        invariant
            0 <= i <= t.inputs@.len(),
            out@ == mid@ + inputs_bytes(t.inputs@.subrange(0, i as int)),
        decreases t.inputs@.len() - i,
    {
        push_input(out, &t.inputs[i]);
        let ghost s = t.inputs@.subrange(0, i + 1);
        assert(s.drop_last() =~= t.inputs@.subrange(0, i as int));
        i = i + 1;
        assert(out@ =~= mid@ + inputs_bytes(t.inputs@.subrange(0, i as int)));
    }
    assert(t.inputs@.subrange(0, i as int) =~= t.inputs@);
    push_len(out, t.outputs.len());
    let mid2 = Ghost(out@);
    let mut j: usize = 0;
    while j < t.outputs.len()
        invariant
            0 <= j <= t.outputs@.len(),
            out@ == mid2@ + outputs_bytes(t.outputs@.subrange(0, j as int)),
        decreases t.outputs@.len() - j,
    {
        push_output(out, &t.outputs[j]);
        let ghost s = t.outputs@.subrange(0, j + 1);
        assert(s.drop_last() =~= t.outputs@.subrange(0, j as int));
        j = j + 1;
        assert(out@ =~= mid2@ + outputs_bytes(t.outputs@.subrange(0, j as int)));
    }
    assert(t.outputs@.subrange(0, j as int) =~= t.outputs@);
    assert(out@ =~= start@ + tx_bytes(*t));
}

/// Appends the encoding of a header.
pub fn push_header(out: &mut Vec<u8>, h: &BlockHeader)
    ensures
        final(out)@ == old(out)@ + header_bytes(*h),
{
    let w: u64 = if h.timestamp >= 0 {
        h.timestamp as u64
    } else {
        (h.timestamp as i128 + 0x1_0000_0000_0000_0000i128) as u64
    };
    push_u64(out, w);
    push_u64(out, h.nonce);
    push_slice(out, h.prev_block_hash.bytes.as_slice());
    push_slice(out, h.merkle_root.0.bytes.as_slice());
    push_u256(out, &h.target);
    assert(out@ =~= old(out)@ + header_bytes(*h));
}

/// Appends the encoding of a block.
pub fn push_block(out: &mut Vec<u8>, b: &Block)
    ensures
        final(out)@ == old(out)@ + block_bytes(*b),
{
    let start = Ghost(out@);
    push_header(out, &b.header);
    push_len(out, b.transactions.len());
    let mid = Ghost(out@);
    let mut i: usize = 0;
    while i < b.transactions.len()
        invariant
            0 <= i <= b.transactions@.len(),
            out@ == mid@ + txs_bytes(b.transactions@.subrange(0, i as int)),
        decreases b.transactions@.len() - i,
    {
        push_transaction(out, &b.transactions[i]);
        let ghost s = b.transactions@.subrange(0, i + 1);
        assert(s.drop_last() =~= b.transactions@.subrange(0, i as int));
        i = i + 1;
        assert(out@ =~= mid@ + txs_bytes(b.transactions@.subrange(0, i as int)));
    }
    assert(b.transactions@.subrange(0, i as int) =~= b.transactions@);
    assert(out@ =~= start@ + block_bytes(*b));
}

} // verus!
