//! Ed25519 keypairs, signing and verification, and the transport envelope.
//!
//! Every payload that crosses the network carries a trailing
//! `pubkey(32) ‖ signature(64)`; `verify_transaction` and `verify_block`
//! split that envelope off and check the signature. The cryptographic
//! primitives themselves are called through trusted wrappers; what they
//! return is named by uninterpreted spec functions, since Ed25519 signing
//! and verification are deterministic functions of their byte inputs.

use vstd::prelude::*;
use ed25519_dalek::Signer;
use crate::bytes::{read_bytes32, read_bytes64, read_vec};

verus! {

/// The Ed25519 signature that signing `msg` with `secret` produces.
pub uninterp spec fn ed25519_sig_of(secret: Seq<u8>, msg: Seq<u8>) -> Seq<u8>;

/// The Ed25519 public key derived from `secret`.
pub uninterp spec fn ed25519_pubkey_of(secret: Seq<u8>) -> Seq<u8>;

/// Whether 32 bytes encode a valid Ed25519 public key.
pub uninterp spec fn ed25519_valid_pubkey(pubkey: Seq<u8>) -> bool;

/// Whether Ed25519 verification accepts `sig` over `msg` under `pubkey`.
pub uninterp spec fn ed25519_verifies(pubkey: Seq<u8>, msg: Seq<u8>, sig: Seq<u8>) -> bool;

/// A signature is accepted when the key parses and verification accepts.
pub open spec fn ed25519_accepts(pubkey: Seq<u8>, msg: Seq<u8>, sig: Seq<u8>) -> bool {
    ed25519_valid_pubkey(pubkey) && ed25519_verifies(pubkey, msg, sig)
}

/// Errors of cryptographic validation.
#[derive(Clone, Debug, PartialEq, Eq)]
pub enum ValidationError {
    /// Payload is too short to carry the envelope.
    InvalidFormat { length: usize },
    /// Signature verification failed.
    InvalidSignature,
    /// Public key is malformed.
    InvalidPublicKey,
    /// Replay attack detected.
    ReplayDetected { nonce: u64 },
}

/// Relies on `ed25519_dalek::VerifyingKey::from_bytes` and
/// `VerifyingKey::verify`: both are deterministic functions of their byte
/// inputs. `from_bytes` succeeds exactly when the bytes encode a valid
/// public key, and `verify` accepts exactly the valid signatures for the
/// key and message.
#[verifier::external_body]
pub fn verify_signature(public_key: &[u8; 32], message: &[u8], signature: &[u8; 64]) -> (r:
    Result<(), ValidationError>)
    ensures
        r is Ok <==> ed25519_accepts(public_key@, message@, signature@),
        r matches Err(e) ==> (e == ValidationError::InvalidPublicKey <==> !ed25519_valid_pubkey(
            public_key@,
        )),
        r matches Err(e) ==> (e == ValidationError::InvalidSignature <==> ed25519_valid_pubkey(
            public_key@,
        ) && !ed25519_verifies(public_key@, message@, signature@)),
{
    let verifying_key = match ed25519_dalek::VerifyingKey::from_bytes(public_key) {
        Ok(k) => k,
        Err(_) => {
            return Err(ValidationError::InvalidPublicKey);
        },
    };
    let sig = ed25519_dalek::Signature::from_bytes(signature);
    match ed25519_dalek::Verifier::verify(&verifying_key, message, &sig) {
        Ok(()) => Ok(()),
        Err(_) => Err(ValidationError::InvalidSignature),
    }
}

/// Relies on `ed25519_dalek::SigningKey::from_bytes` (total on 32-byte
/// secrets) and `Signer::sign`: Ed25519 signing is deterministic, so the
/// signature is a function of the secret key and the message alone; and a
/// produced signature verifies under the secret's own public key (the
/// signing hash is the one verification recomputes, and the scalar is
/// reduced, so the canonicality check passes).
#[verifier::external_body]
fn dalek_sign(secret: &[u8; 32], message: &[u8]) -> (r: [u8; 64])
    ensures
        r@ == ed25519_sig_of(secret@, message@),
        ed25519_verifies(ed25519_pubkey_of(secret@), message@, r@),
{
    ed25519_dalek::SigningKey::from_bytes(secret).sign(message).to_bytes()
}

/// Relies on `ed25519_dalek::SigningKey::from_bytes` and
/// `SigningKey::verifying_key`: the public key is a deterministic function
/// of the secret key.
#[verifier::external_body]
fn dalek_public_key(secret: &[u8; 32]) -> (r: [u8; 32])
    ensures
        r@ == ed25519_pubkey_of(secret@),
{
    ed25519_dalek::SigningKey::from_bytes(secret).verifying_key().to_bytes()
}

/// Relies on `ed25519_dalek::SigningKey::generate` with the operating
/// system's random number generator: the result is random, so nothing is
/// promised of it.
#[verifier::external_body]
fn random_secret() -> (r: [u8; 32]) {
    ed25519_dalek::SigningKey::generate(&mut rand::rngs::OsRng).to_bytes()
}

/// A keypair for signing operations.
pub struct Keypair {
    secret: [u8; 32],
}

impl Keypair {
    /// The secret key bytes, for contracts.
    pub closed spec fn secret_view(&self) -> Seq<u8> {
        self.secret@
    }

    /// Generate a new random keypair.
    pub fn generate() -> Self {
        Keypair { secret: random_secret() }
    }

    /// Create a keypair from a secret key (32 bytes).
    pub fn from_secret(secret: &[u8; 32]) -> (r: Self)
        ensures
            r.secret_view() == secret@,
    {
        Keypair { secret: *secret }
    }

    /// Get the public key (32 bytes).
    pub fn public_key(&self) -> (r: [u8; 32])
        ensures
            r@ == ed25519_pubkey_of(self.secret_view()),
    {
        dalek_public_key(&self.secret)
    }

    /// Sign a message, returning a 64-byte signature.
    pub fn sign(&self, message: &[u8]) -> (r: [u8; 64])
        ensures
            r@ == ed25519_sig_of(self.secret_view(), message@),
    {
        dalek_sign(&self.secret, message)
    }
}

/// Sign a message with a secret key.
pub fn sign_message(secret: &[u8; 32], message: &[u8]) -> (r: [u8; 64])
    ensures
        r@ == ed25519_sig_of(secret@, message@),
{
    let keypair = Keypair::from_secret(secret);
    keypair.sign(message)
}

/// The data prefix of an enveloped payload.
pub open spec fn envelope_data(payload: Seq<u8>) -> Seq<u8>
    recommends
        payload.len() >= 96,
{
    payload.subrange(0, payload.len() - 96)
}

/// The 32-byte public key of an enveloped payload.
pub open spec fn envelope_pubkey(payload: Seq<u8>) -> Seq<u8>
    recommends
        payload.len() >= 96,
{
    payload.subrange(payload.len() - 96, payload.len() - 64)
}

/// The trailing 64-byte signature of an enveloped payload.
pub open spec fn envelope_signature(payload: Seq<u8>) -> Seq<u8>
    recommends
        payload.len() >= 96,
{
    payload.subrange(payload.len() - 64, payload.len() as int)
}

/// Whether an enveloped payload passes signature verification.
pub open spec fn envelope_accepted(payload: Seq<u8>) -> bool
    recommends
        payload.len() >= 96,
{
    ed25519_accepts(envelope_pubkey(payload), envelope_data(payload), envelope_signature(payload))
}

/// A transaction payload that has passed cryptographic verification.
pub struct VerifiedTransaction {
    /// The transaction data (excluding signature and pubkey).
    pub data: Vec<u8>,
    /// The verified signer's public key.
    pub signer: [u8; 32],
    /// The verified signature.
    pub signature: [u8; 64],
}

impl VerifiedTransaction {
    /// Get the transaction data.
    pub fn data(&self) -> (r: &[u8])
        ensures
            r@ == self.data@,
    {
        self.data.as_slice()
    }

    /// Get the signer's public key.
    pub fn signer(&self) -> (r: &[u8; 32])
        ensures
            r@ == self.signer@,
    {
        &self.signer
    }
}

/// A block payload that has passed cryptographic verification.
pub struct VerifiedBlock {
    /// The block data (excluding signature and producer key).
    pub data: Vec<u8>,
    /// The verified block producer's public key.
    pub producer: [u8; 32],
    /// The verified signature.
    pub signature: [u8; 64],
}

impl VerifiedBlock {
    /// Get the block data.
    pub fn data(&self) -> (r: &[u8])
        ensures
            r@ == self.data@,
    {
        self.data.as_slice()
    }

    /// Get the producer's public key.
    pub fn producer(&self) -> (r: &[u8; 32])
        ensures
            r@ == self.producer@,
    {
        &self.producer
    }
}

/// Verify a raw transaction payload of the form
/// `data ‖ pubkey(32) ‖ signature(64)`.
pub fn verify_transaction(payload: &[u8]) -> (r: Result<VerifiedTransaction, ValidationError>)
    ensures
        payload@.len() < 96 <==> r == Err::<VerifiedTransaction, ValidationError>(
            ValidationError::InvalidFormat { length: payload@.len() as usize },
        ),
        payload@.len() >= 96 ==> (r is Ok <==> envelope_accepted(payload@)),
        r matches Ok(v) ==> v.data@ == envelope_data(payload@) && v.signer@ == envelope_pubkey(
            payload@,
        ) && v.signature@ == envelope_signature(payload@),
        payload@.len() >= 96 ==> (r == Err::<VerifiedTransaction, ValidationError>(
            ValidationError::InvalidPublicKey,
        ) <==> !ed25519_valid_pubkey(envelope_pubkey(payload@))),
        payload@.len() >= 96 ==> (r == Err::<VerifiedTransaction, ValidationError>(
            ValidationError::InvalidSignature,
        ) <==> ed25519_valid_pubkey(envelope_pubkey(payload@)) && !ed25519_verifies(
            envelope_pubkey(payload@),
            envelope_data(payload@),
            envelope_signature(payload@),
        )),
{
    let n = payload.len();
    if n < 96 {
        return Err(ValidationError::InvalidFormat { length: n });
    }
    let data = read_vec(payload, 0, n - 96);
    let pubkey = read_bytes32(payload, n - 96);
    let signature = read_bytes64(payload, n - 64);
    match verify_signature(&pubkey, data.as_slice(), &signature) {
        Ok(()) => Ok(VerifiedTransaction { data, signer: pubkey, signature }),
        Err(e) => Err(e),
    }
}

/// Verify a raw block payload; same envelope format as transactions.
pub fn verify_block(payload: &[u8]) -> (r: Result<VerifiedBlock, ValidationError>)
    ensures
        payload@.len() < 96 <==> r == Err::<VerifiedBlock, ValidationError>(
            ValidationError::InvalidFormat { length: payload@.len() as usize },
        ),
        payload@.len() >= 96 ==> (r is Ok <==> envelope_accepted(payload@)),
        r matches Ok(v) ==> v.data@ == envelope_data(payload@) && v.producer@ == envelope_pubkey(
            payload@,
        ) && v.signature@ == envelope_signature(payload@),
        payload@.len() >= 96 ==> (r == Err::<VerifiedBlock, ValidationError>(
            ValidationError::InvalidPublicKey,
        ) <==> !ed25519_valid_pubkey(envelope_pubkey(payload@))),
        payload@.len() >= 96 ==> (r == Err::<VerifiedBlock, ValidationError>(
            ValidationError::InvalidSignature,
        ) <==> ed25519_valid_pubkey(envelope_pubkey(payload@)) && !ed25519_verifies(
            envelope_pubkey(payload@),
            envelope_data(payload@),
            envelope_signature(payload@),
        )),
{
    let n = payload.len();
    if n < 96 {
        return Err(ValidationError::InvalidFormat { length: n });
    }
    let data = read_vec(payload, 0, n - 96);
    let producer = read_bytes32(payload, n - 96);
    let signature = read_bytes64(payload, n - 64);
    match verify_signature(&producer, data.as_slice(), &signature) {
        Ok(()) => Ok(VerifiedBlock { data, producer, signature }),
        Err(e) => Err(e),
    }
}

} // verus!
