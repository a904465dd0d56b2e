//! Transactions: the atomic units of state mutation, and their canonical
//! signing bytes.

use vstd::prelude::*;
use vstd::bytes::spec_u64_to_le_bytes;
use crate::bytes::{push_bytes32, push_slice, push_u64_le};

verus! {

/// A blockchain transaction.
pub struct Transaction {
    /// Sender's public key.
    pub from: [u8; 32],
    /// Recipient's address.
    pub to: [u8; 32],
    /// Amount to transfer.
    pub amount: u64,
    /// Sender's nonce (for replay protection).
    pub nonce: u64,
    /// Optional payload data.
    pub payload: Vec<u8>,
    /// Ed25519 signature (64 bytes).
    pub signature: Vec<u8>,
}

/// The mathematical value of a transaction.
pub ghost struct TransactionView {
    pub from: [u8; 32],
    pub to: [u8; 32],
    pub amount: u64,
    pub nonce: u64,
    pub payload: Seq<u8>,
    pub signature: Seq<u8>,
}

impl View for Transaction {
    type V = TransactionView;

    open spec fn view(&self) -> TransactionView {
        TransactionView {
            from: self.from,
            to: self.to,
            amount: self.amount,
            nonce: self.nonce,
            payload: self.payload@,
            signature: self.signature@,
        }
    }
}

impl Clone for Transaction {
    fn clone(&self) -> (r: Self)
        ensures
            r@ == self@,
    {
        Transaction {
            from: self.from,
            to: self.to,
            amount: self.amount,
            nonce: self.nonce,
            payload: self.payload.clone(),
            signature: self.signature.clone(),
        }
    }
}

/// A 64-byte all-zero signature placeholder.
pub open spec fn zero_signature() -> Seq<u8> {
    Seq::new(64, |i: int| 0u8)
}

/// The canonical signing bytes of a transaction:
/// `from ‖ to ‖ amount_LE ‖ nonce_LE ‖ payload`. A pure function of the
/// content fields; the signature does not enter it.
pub open spec fn spec_tx_signing_bytes(t: TransactionView) -> Seq<u8> {
    t.from@ + t.to@ + spec_u64_to_le_bytes(t.amount) + spec_u64_to_le_bytes(t.nonce) + t.payload
}

impl Transaction {
    /// Create a new unsigned transaction.
    pub fn new(from: [u8; 32], to: [u8; 32], amount: u64, nonce: u64) -> (r: Self)
        ensures
            r@ == (TransactionView {
                from,
                to,
                amount,
                nonce,
                payload: Seq::<u8>::empty(),
                signature: zero_signature(),
            }),
    {
        let signature = zero_signature_vec();
        let r = Transaction { from, to, amount, nonce, payload: Vec::new(), signature };
        proof {
            assert(r.payload@ =~= Seq::<u8>::empty());
        }
        r
    }

    /// Create a new unsigned transaction with a payload.
    pub fn with_payload(from: [u8; 32], to: [u8; 32], amount: u64, nonce: u64, payload: Vec<
        u8,
    >) -> (r: Self)
        ensures
            r@ == (TransactionView {
                from,
                to,
                amount,
                nonce,
                payload: payload@,
                signature: zero_signature(),
            }),
    {
        let signature = zero_signature_vec();
        Transaction { from, to, amount, nonce, payload, signature }
    }

    /// Get the bytes to be signed: the canonical serialization for
    /// signature verification.
    pub fn signing_bytes(&self) -> (r: Vec<u8>)
        ensures
            r@ == spec_tx_signing_bytes(self@),
    {
        let mut bytes: Vec<u8> = Vec::new();
        push_bytes32(&mut bytes, &self.from);
        push_bytes32(&mut bytes, &self.to);
        push_u64_le(&mut bytes, self.amount);
        push_u64_le(&mut bytes, self.nonce);
        push_slice(&mut bytes, self.payload.as_slice());
        bytes
    }

    /// Set the signature for this transaction.
    pub fn set_signature(&mut self, sig: [u8; 64])
        ensures
            final(self)@ == (TransactionView { signature: sig@, ..old(self)@ }),
    {
        let mut signature: Vec<u8> = Vec::new();
        crate::bytes::push_bytes64(&mut signature, &sig);
        proof {
            assert(signature@ =~= sig@);
        }
        self.signature = signature;
    }
}

/// A fresh 64-byte all-zero vector: the unsigned signature placeholder.
pub fn zero_signature_vec() -> (r: Vec<u8>)
    ensures
        r@ == zero_signature(),
{
    let mut v: Vec<u8> = Vec::new();
    let mut i: usize = 0;
    while i < 64
        invariant
            0 <= i <= 64,
            v@.len() == i,
            forall|j: int| 0 <= j < i ==> v@[j] == 0u8,
        decreases 64 - i,
    {
        v.push(0u8);
        i += 1;
    }
    proof {
        assert(v@ =~= zero_signature());
    }
    v
}

/// Law: the transaction signing bytes are a pure function of the content
/// fields; two transactions that agree on sender, recipient, amount, nonce
/// and payload have the same signing bytes, whatever their signatures.
pub proof fn lemma_tx_signing_bytes_reproducible(a: TransactionView, b: TransactionView)
    requires
        a.from == b.from,
        a.to == b.to,
        a.amount == b.amount,
        a.nonce == b.nonce,
        a.payload == b.payload,
    ensures
        spec_tx_signing_bytes(a) == spec_tx_signing_bytes(b),
{
}

} // verus!
