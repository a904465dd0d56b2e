//! Blocks: ordered collections of transactions at a height, their canonical
//! signing bytes and the placeholder block hash.

use vstd::prelude::*;
use vstd::bytes::spec_u64_to_le_bytes;
use crate::bytes::{push_bytes32, push_slice, push_u64_le};
use crate::clock::now_seconds;
use crate::tx::{spec_tx_signing_bytes, zero_signature, Transaction, TransactionView};

verus! {

/// A blockchain block.
pub struct Block {
    /// Block height (0 = genesis).
    pub height: u64,
    /// Hash of the parent block.
    pub parent_hash: [u8; 32],
    /// State root after applying this block.
    pub state_root: [u8; 32],
    /// Block timestamp (Unix epoch seconds).
    pub timestamp: u64,
    /// Transactions in this block.
    pub txs: Vec<Transaction>,
    /// Block producer's public key.
    pub producer: [u8; 32],
    /// Block signature (64 bytes).
    pub signature: Vec<u8>,
}

/// The mathematical value of a block.
pub ghost struct BlockView {
    pub height: u64,
    pub parent_hash: [u8; 32],
    pub state_root: [u8; 32],
    pub timestamp: u64,
    pub txs: Seq<TransactionView>,
    pub producer: [u8; 32],
    pub signature: Seq<u8>,
}

/// The views of a sequence of transactions.
pub open spec fn txs_view(txs: Seq<Transaction>) -> Seq<TransactionView> {
    Seq::new(txs.len(), |i: int| txs[i]@)
}

impl View for Block {
    type V = BlockView;

    open spec fn view(&self) -> BlockView {
        BlockView {
            height: self.height,
            parent_hash: self.parent_hash,
            state_root: self.state_root,
            timestamp: self.timestamp,
            txs: txs_view(self.txs@),
            producer: self.producer,
            signature: self.signature@,
        }
    }
}

impl Clone for Block {
    fn clone(&self) -> (r: Self)
        ensures
            r@ == self@,
    {
        let mut txs: Vec<Transaction> = Vec::new();
        let n = self.txs.len();
        let mut i: usize = 0;
        while i < n
            invariant
                0 <= i <= n,
                n == self.txs@.len(),
                txs@.len() == i,
                forall|k: int| 0 <= k < i ==> (#[trigger] txs@[k])@ == self.txs@[k]@,
            decreases n - i,
        {
            txs.push(self.txs[i].clone());
            i += 1;
        }
        let r = Block {
            height: self.height,
            parent_hash: self.parent_hash,
            state_root: self.state_root,
            timestamp: self.timestamp,
            txs,
            producer: self.producer,
            signature: self.signature.clone(),
        };
        proof {
            assert(r@.txs =~= self@.txs);
        }
        r
    }
}

/// The concatenation of the signing bytes of a sequence of transactions.
pub open spec fn concat_tx_bytes(txs: Seq<TransactionView>) -> Seq<u8>
    decreases txs.len(),
{
    if txs.len() == 0 {
        Seq::empty()
    } else {
        concat_tx_bytes(txs.drop_last()) + spec_tx_signing_bytes(txs.last())
    }
}

/// The canonical signing bytes of a block:
/// `height_LE ‖ parent ‖ root ‖ timestamp_LE ‖ count_LE ‖ tx bytes ‖ producer`.
/// A pure function of the content fields; the signature does not enter it.
pub open spec fn spec_block_signing_bytes(b: BlockView) -> Seq<u8> {
    spec_u64_to_le_bytes(b.height) + b.parent_hash@ + b.state_root@ + spec_u64_to_le_bytes(
        b.timestamp,
    ) + spec_u64_to_le_bytes(b.txs.len() as u64) + concat_tx_bytes(b.txs) + b.producer@
}

/// The placeholder hash accumulator: every byte is folded by xor into a
/// 32-byte accumulator at its index modulo 32.
pub open spec fn xor_fold(bytes: Seq<u8>) -> Seq<u8>
    decreases bytes.len(),
{
    if bytes.len() == 0 {
        Seq::new(32, |i: int| 0u8)
    } else {
        let h = xor_fold(bytes.drop_last());
        let pos = (bytes.len() - 1) % 32;
        h.update(pos, h[pos] ^ bytes.last())
    }
}

/// The placeholder block hash: the xor fold of the signing bytes.
pub open spec fn spec_block_hash(b: BlockView) -> Seq<u8> {
    xor_fold(spec_block_signing_bytes(b))
}

impl Block {
    /// Create a new unsigned block with an explicit timestamp.
    pub fn with_timestamp(
        height: u64,
        parent_hash: [u8; 32],
        state_root: [u8; 32],
        timestamp: u64,
        txs: Vec<Transaction>,
        producer: [u8; 32],
    ) -> (r: Self)
        ensures
            r@ == (BlockView {
                height,
                parent_hash,
                state_root,
                timestamp,
                txs: txs_view(txs@),
                producer,
                signature: zero_signature(),
            }),
    {
        let signature = crate::tx::zero_signature_vec();
        Block { height, parent_hash, state_root, timestamp, txs, producer, signature }
    }

    /// Create a new unsigned block, stamped with the current wall-clock
    /// time. Every field but the timestamp is pinned by the arguments.
    pub fn new(
        height: u64,
        parent_hash: [u8; 32],
        state_root: [u8; 32],
        txs: Vec<Transaction>,
        producer: [u8; 32],
    ) -> (r: Self)
        ensures
            r@ == (BlockView {
                height,
                parent_hash,
                state_root,
                timestamp: r@.timestamp,
                txs: txs_view(txs@),
                producer,
                signature: zero_signature(),
            }),
    {
        let timestamp = now_seconds();
        Block::with_timestamp(height, parent_hash, state_root, timestamp, txs, producer)
    }

    /// Create the genesis block: height 0, all hashes zero, timestamp 0.
    pub fn genesis() -> (r: Self)
        ensures
            r@ == (BlockView {
                height: 0,
                parent_hash: r.parent_hash,
                state_root: r.state_root,
                timestamp: 0,
                txs: Seq::<TransactionView>::empty(),
                producer: r.producer,
                signature: zero_signature(),
            }),
            r.parent_hash@ == Seq::new(32, |i: int| 0u8),
            r.state_root@ == Seq::new(32, |i: int| 0u8),
            r.producer@ == Seq::new(32, |i: int| 0u8),
    {
        let zeros = [0u8; 32];
        proof {
            assert(zeros@ =~= Seq::new(32, |i: int| 0u8));
        }
        let r = Block::with_timestamp(0, zeros, zeros, 0, Vec::new(), zeros);
        proof {
            assert(r@.txs =~= Seq::<TransactionView>::empty());
        }
        r
    }

    /// Get the bytes to be signed.
    pub fn signing_bytes(&self) -> (r: Vec<u8>)
        ensures
            r@ == spec_block_signing_bytes(self@),
    {
        let mut bytes: Vec<u8> = Vec::new();
        push_u64_le(&mut bytes, self.height);
        push_bytes32(&mut bytes, &self.parent_hash);
        push_bytes32(&mut bytes, &self.state_root);
        push_u64_le(&mut bytes, self.timestamp);
        push_u64_le(&mut bytes, self.txs.len() as u64);
        let n = self.txs.len();
        let mut i: usize = 0;
        let ghost prefix = bytes@;
        while i < n
            invariant
                0 <= i <= n,
                n == self.txs@.len(),
                bytes@ == prefix + concat_tx_bytes(txs_view(self.txs@).take(i as int)),
            decreases n - i,
        {
            let mut tx_bytes = self.txs[i].signing_bytes();
            bytes.append(&mut tx_bytes);
            proof {
                let tv = txs_view(self.txs@);
                assert(tv.take(i + 1).drop_last() =~= tv.take(i as int));
                assert(tv.take(i + 1).last() == tv[i as int]);
                assert(bytes@ =~= prefix + concat_tx_bytes(tv.take(i + 1)));
            }
            i += 1;
        }
        proof {
            assert(txs_view(self.txs@).take(n as int) =~= txs_view(self.txs@));
        }
        push_bytes32(&mut bytes, &self.producer);
        proof {
            assert(txs_view(self.txs@).len() == self.txs@.len());
        }
        bytes
    }

    /// Compute the placeholder block hash: deterministic, not collision
    /// resistant; a production hash must keep the same input ordering.
    pub fn hash(&self) -> (r: [u8; 32])
        ensures
            r@ == spec_block_hash(self@),
    {
        let bytes = self.signing_bytes();
        let mut hash = [0u8; 32];
        let n = bytes.len();
        let mut i: usize = 0;
        proof {
            assert(bytes@.take(0) =~= Seq::<u8>::empty());
            assert(hash@ =~= xor_fold(bytes@.take(0)));
        }
        while i < n
            invariant
                0 <= i <= n,
                n == bytes@.len(),
                bytes@ == spec_block_signing_bytes(self@),
                hash@.len() == 32,
                hash@ == xor_fold(bytes@.take(i as int)),
            decreases n - i,
        {
            let pos = i % 32;
            let updated = hash[pos] ^ bytes[i];
            vstd::array::ArrayAdditionalExecFns::set(&mut hash, pos, updated);
            proof {
                let t = bytes@.take(i + 1);
                assert(t.drop_last() =~= bytes@.take(i as int));
                assert(t.last() == bytes@[i as int]);
                assert(hash@ =~= xor_fold(bytes@.take(i + 1)));
            }
            i += 1;
        }
        proof {
            assert(bytes@.take(n as int) =~= bytes@);
        }
        hash
    }

    /// Set the signature for this block.
    pub fn set_signature(&mut self, sig: [u8; 64])
        ensures
            final(self)@ == (BlockView { signature: sig@, ..old(self)@ }),
    {
        let mut signature: Vec<u8> = Vec::new();
        crate::bytes::push_bytes64(&mut signature, &sig);
        proof {
            assert(signature@ =~= sig@);
        }
        self.signature = signature;
    }

    /// Check if this is the genesis block.
    pub fn is_genesis(&self) -> (r: bool)
        ensures
            r <==> self.height == 0,
    {
        self.height == 0
    }

    /// Get the number of transactions in this block.
    pub fn tx_count(&self) -> (r: usize)
        ensures
            r == self.txs@.len(),
    {
        self.txs.len()
    }
}

/// Law: the block signing bytes are a pure function of the content fields;
/// two blocks that agree on height, hashes, timestamp, transactions and
/// producer have the same signing bytes and the same hash, whatever their
/// signatures.
pub proof fn lemma_block_signing_bytes_reproducible(a: BlockView, b: BlockView)
    requires
        a.height == b.height,
        a.parent_hash == b.parent_hash,
        a.state_root == b.state_root,
        a.timestamp == b.timestamp,
        a.txs == b.txs,
        a.producer == b.producer,
    ensures
        spec_block_signing_bytes(a) == spec_block_signing_bytes(b),
        spec_block_hash(a) == spec_block_hash(b),
{
}

} // verus!
