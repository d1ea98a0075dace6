//! secp256k1 keys and ECDSA signatures over 32-byte digests.
use vstd::prelude::*;
use crate::error::BtcError;
use crate::hash::be_value;
use ecdsa::signature::{Signer, Verifier};
use k256::Secp256k1;
use rand_core::OsRng;

verus! {

/// The order of the secp256k1 group.
pub open spec fn group_order() -> nat {
    0xFFFF_FFFF_FFFF_FFFF_FFFF_FFFF_FFFF_FFFE_BAAE_DCE6_AF48_A03B_BFD2_5E8C_D036_4141nat
}

/// Whether 32 bytes are a secret scalar: read big-endian, nonzero and below the group order.
pub open spec fn valid_secret(secret: Seq<u8>) -> bool {
    secret.len() == 32 && 0 < be_value(secret) < group_order()
}

/// The deterministic (RFC 6979) ECDSA signature, as `r || s`, of `msg` under `secret`.
pub uninterp spec fn ecdsa_signature(secret: Seq<u8>, msg: Seq<u8>) -> Seq<u8>;

/// The compressed SEC1 encoding of the public key that belongs to `secret`.
pub uninterp spec fn ecdsa_public_key(secret: Seq<u8>) -> Seq<u8>;

/// Whether `signature` is a valid ECDSA signature of `msg` under the SEC1-encoded key.
pub uninterp spec fn ecdsa_accepts(public_key: Seq<u8>, msg: Seq<u8>, signature: Seq<u8>) -> bool;

/// Relies on ecdsa's `SigningKey::random` with rand_core's `OsRng`: a fresh
/// nonzero scalar below the group order, serialised by `SigningKey::to_bytes`.
#[verifier::external_body]
fn random_secret() -> (r: [u8; 32])
    ensures
        valid_secret(r@),
{
    let key = ecdsa::SigningKey::<Secp256k1>::random(&mut OsRng);
    key.to_bytes().into()
}

/// Relies on ecdsa's `SigningKey::from_slice`: whether it accepts the bytes.
#[verifier::external_body]
fn check_secret(secret: &[u8; 32]) -> (r: bool)
    ensures
        r == valid_secret(secret@),
{
    ecdsa::SigningKey::<Secp256k1>::from_slice(secret).is_ok()
}

/// Relies on ecdsa's `Signer::sign` for `SigningKey<Secp256k1>`: the
/// deterministic signature of the message (hashed with SHA-256 by the signer),
/// which `Verifier::verify` accepts for the same message under the key's
/// verifying key.
#[verifier::external_body]
fn sign_message(secret: &[u8; 32], msg: &[u8; 32]) -> (r: [u8; 64])
    requires
        valid_secret(secret@),
    ensures
        r@ == ecdsa_signature(secret@, msg@),
        ecdsa_accepts(ecdsa_public_key(secret@), msg@, r@),
{
    let key = ecdsa::SigningKey::<Secp256k1>::from_slice(secret).unwrap();
    let sig: ecdsa::Signature<Secp256k1> = key.sign(msg);
    sig.to_bytes().into()
}

/// Relies on ecdsa's `VerifyingKey::to_encoded_point`, compressed, of the
/// key's `verifying_key`.
#[verifier::external_body]
fn public_key_of(secret: &[u8; 32]) -> (r: [u8; 33])
    requires
        valid_secret(secret@),
    ensures
        r@ == ecdsa_public_key(secret@),
{
    let key = ecdsa::SigningKey::<Secp256k1>::from_slice(secret).unwrap();
    let point = key.verifying_key().to_encoded_point(true);
    let mut out = [0u8; 33];
    out.copy_from_slice(point.as_bytes());
    out
}

/// Relies on ecdsa's `Verifier::verify` for `VerifyingKey<Secp256k1>`, after
/// `VerifyingKey::from_sec1_bytes` and `Signature::from_slice`; a key or a
/// signature that does not decode is rejected.
#[verifier::external_body]
fn verify_message(public_key: &[u8; 33], msg: &[u8; 32], signature: &[u8; 64]) -> (r: bool)
    ensures
        r == ecdsa_accepts(public_key@, msg@, signature@),
{
    match (
        ecdsa::VerifyingKey::<Secp256k1>::from_sec1_bytes(public_key),
        ecdsa::Signature::<Secp256k1>::from_slice(signature),
    ) {
        (Ok(key), Ok(sig)) => key.verify(msg, &sig).is_ok(),
        _ => false,
    }
}

/// An ECDSA signature, `r || s` in big-endian order.
#[derive(Debug, Clone, Copy, PartialEq, Eq)]
pub struct Signature {
    pub bytes: [u8; 64],
}

/// A public key in compressed SEC1 encoding.
#[derive(Debug, Clone, Copy, PartialEq, Eq)]
pub struct PublicKey {
    pub bytes: [u8; 33],
}

/// A secret signing scalar; it always holds a valid scalar.
pub struct PrivateKey {
    secret: [u8; 32],
}

impl View for Signature {
    type V = Seq<u8>;

    open spec fn view(&self) -> Seq<u8> {
        self.bytes@
    }
}

impl View for PublicKey {
    type V = Seq<u8>;

    open spec fn view(&self) -> Seq<u8> {
        self.bytes@
    }
}

impl View for PrivateKey {
    type V = Seq<u8>;

    closed spec fn view(&self) -> Seq<u8> {
        self.secret@
    }
}

impl Clone for PrivateKey {
    fn clone(&self) -> (r: PrivateKey)
        ensures
            r == *self,
    {
        proof {
            use_type_invariant(self);
        }
        PrivateKey { secret: self.secret }
    }
}

impl PrivateKey {
    #[verifier::type_invariant]
    closed spec fn inv(&self) -> bool {
        valid_secret(self.secret@)
    }

    /// A fresh key drawn from the operating system's secure random source.
    pub fn new_key() -> (r: PrivateKey)
        ensures
            valid_secret(r@),
    {
        PrivateKey { secret: random_secret() }
    }

    /// The key held by the given scalar bytes, if they are a valid scalar.
    pub fn from_bytes(secret: [u8; 32]) -> (r: Result<PrivateKey, BtcError>)
        ensures
            valid_secret(secret@) ==> (r matches Ok(k) && k@ == secret@),
            !valid_secret(secret@) ==> r == Err::<PrivateKey, BtcError>(BtcError::InvalidPrivateKey),
    {
        if check_secret(&secret) {
            Ok(PrivateKey { secret })
        } else {
            Err(BtcError::InvalidPrivateKey)
        }
    }

    /// The scalar bytes of the key.
    pub fn to_bytes(&self) -> (r: [u8; 32])
        ensures
            r@ == self@,
            valid_secret(r@),
    {
        proof {
            use_type_invariant(self);
        }
        self.secret
    }

    /// The public key that belongs to this key.
    pub fn public_key(&self) -> (r: PublicKey)
        ensures
            r@ == ecdsa_public_key(self@),
    {
        proof {
            use_type_invariant(self);
        }
        PublicKey { bytes: public_key_of(&self.secret) }
    }
}

impl Signature {
    /// Signs the digest of an output with the given key. The signature
    /// verifies over that digest under the key's public key.
    pub fn sign_out(output_hash: &crate::hash::Hash, private_key: &mut PrivateKey) -> (r: Signature)
        ensures
            r@ == ecdsa_signature(old(private_key)@, output_hash@),
            ecdsa_accepts(ecdsa_public_key(old(private_key)@), output_hash@, r@),
            *final(private_key) == *old(private_key),
    {
        proof {
            use_type_invariant(&*private_key);
        }
        Signature { bytes: sign_message(&private_key.secret, &output_hash.bytes) }
    }

    /// Whether this is a valid signature of the digest under `public_key`.
    pub fn verify(&self, output_hash: &crate::hash::Hash, public_key: &PublicKey) -> (r: bool)
        ensures
            r == ecdsa_accepts(public_key@, output_hash@, self@),
    {
        verify_message(&public_key.bytes, &output_hash.bytes, &self.bytes)
    }
}

} // verus!
