//! The 256-bit digest used to address blocks, transactions and outputs.
use vstd::prelude::*;
use crate::u256::{U256, w1, w2, w3, words_value};
use sha2::Digest;

verus! {

/// What SHA-256 yields for the given bytes.
pub uninterp spec fn sha256_of(data: Seq<u8>) -> Seq<u8>;

/// Relies on sha2's `Sha256::digest`: the 32-byte SHA-256 digest of the input,
/// a function of the input bytes alone.
#[verifier::external_body]
fn sha256(data: &[u8]) -> (r: [u8; 32])
    ensures
        r@ == sha256_of(data@),
{
    sha2::Sha256::digest(data).into()
}

/// A SHA-256 digest.
#[derive(Debug, Clone, Copy, PartialEq, Eq)]
pub struct Hash {
    pub bytes: [u8; 32],
}

/// Thirty-two zero bytes.
pub open spec fn zero_bytes() -> Seq<u8> {
    Seq::new(32, |i: int| 0u8)
}

/// The big-endian value of the eight bytes of `s` that start at `o`.
pub open spec fn be_word(s: Seq<u8>, o: int) -> nat {
    (s[o] as nat) * 0x100_0000_0000_0000 + (s[o + 1] as nat) * 0x1_0000_0000_0000
        + (s[o + 2] as nat) * 0x100_0000_0000 + (s[o + 3] as nat) * 0x1_0000_0000
        + (s[o + 4] as nat) * 0x100_0000 + (s[o + 5] as nat) * 0x1_0000
        + (s[o + 6] as nat) * 0x100 + (s[o + 7] as nat)
}

/// The value of 32 bytes read as a big-endian unsigned integer.
pub open spec fn be_value(s: Seq<u8>) -> nat {
    be_word(s, 0) * w3() + be_word(s, 8) * w2() + be_word(s, 16) * w1() + be_word(s, 24)
}

impl View for Hash {
    type V = Seq<u8>;

    open spec fn view(&self) -> Seq<u8> {
        self.bytes@
    }
}

/// Reads the eight bytes at `o` as a big-endian word.
fn read_word(b: &[u8; 32], o: usize) -> (r: u64)
    requires
        o + 8 <= 32,
    ensures
        r as nat == be_word(b@, o as int),
{
    (b[o] as u64) * 0x100_0000_0000_0000 + (b[o + 1] as u64) * 0x1_0000_0000_0000
        + (b[o + 2] as u64) * 0x100_0000_0000 + (b[o + 3] as u64) * 0x1_0000_0000
        + (b[o + 4] as u64) * 0x100_0000 + (b[o + 5] as u64) * 0x1_0000
        + (b[o + 6] as u64) * 0x100 + (b[o + 7] as u64)
}

impl Hash {
    /// The digest of the given bytes.
    pub fn hash(data: &[u8]) -> (r: Hash)
        ensures
            r@ == sha256_of(data@),
    {
        Hash { bytes: sha256(data) }
    }

    /// Wraps 32 bytes that already are a digest.
    pub fn from_bytes(bytes: [u8; 32]) -> (r: Hash)
        ensures
            r@ == bytes@,
    {
        Hash { bytes }
    }

    /// The all-zero digest, used as the predecessor link of the first block.
    pub fn zero() -> (r: Hash)
        ensures
            r@ == zero_bytes(),
    {
        let r = Hash { bytes: [0u8; 32] };
        assert(r@ =~= zero_bytes());
        r
    }

    /// The 32 bytes of the digest.
    pub fn as_bytes(&self) -> (r: [u8; 32])
        ensures
            r@ == self@,
    {
        self.bytes
    }

    /// Byte equality of two digests.
    pub fn same(&self, other: &Hash) -> (r: bool)
        ensures
            r == (self@ == other@),
    {
        let mut i: usize = 0;
        while i < 32
            invariant
                0 <= i <= 32,
                forall|j: int| 0 <= j < i ==> self@[j] == other@[j],
            decreases 32 - i,
        {
            if self.bytes[i] != other.bytes[i] {
                return false;
            }
            i = i + 1;
        }
        assert(self@ =~= other@);
        true
    }

    /// The digest read as a big-endian unsigned integer.
    pub fn to_u256(&self) -> (r: U256)
        ensures
            r.value() == be_value(self@),
    {
        let b = &self.bytes;
        U256([read_word(b, 24), read_word(b, 16), read_word(b, 8), read_word(b, 0)])
    }

    /// Whether the digest, read as a big-endian unsigned integer, is at most `target`.
    pub fn matches_target(&self, target: &U256) -> (r: bool)
        ensures
            r == (be_value(self@) <= target.value()),
    {
        self.to_u256().le(target)
    }
}

} // verus!
