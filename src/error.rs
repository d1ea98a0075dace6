use vstd::prelude::*;

verus! {

/// The kinds of failure reported by the validating operations.
#[derive(Debug, Clone, Copy, PartialEq, Eq, Structural)]
pub enum BtcError {
    InvalidTransaction,
    InvalidBlock,
    InvalidBlockHeader,
    InvalidTransactionOutput,
    InvalidTransactionInput,
    InvalidMerkleRoot,
    InvalidBlockChain,
    InvalidHash,
    InvalidPrivateKey,
    InvalidPublicKey,
    InvalidSignature,
}

} // verus!
