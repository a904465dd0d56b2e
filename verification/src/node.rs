//! The node's message pipelines: the decisions taken on an inbound
//! transaction or block payload, from signature verification through
//! decoding to the runtime. The surrounding I/O — transport, disk,
//! timers — lives outside the library and calls in with plain bytes.

use vstd::prelude::*;
use vstd::std_specs::vec::axiom_spec_len;
use crate::block::{txs_view, Block, BlockView};
use crate::codec::{
    decode_block,
    decode_transaction,
    spec_encode_block,
    spec_encode_tx,
    txs_len_ok,
};
use crate::crypto::{
    envelope_accepted,
    envelope_data,
    verify_block,
    verify_transaction,
    ValidationError,
};
use crate::runtime::{chain_applies, spec_apply_chain, tx_applies, Runtime, RuntimeError};
use crate::tx::{Transaction, TransactionView};

verus! {

/// Errors of node orchestration.
#[derive(Clone, Debug)]
pub enum NodeError {
    /// Storage initialization failed.
    StorageInit(String),
    /// Cryptographic validation failed.
    ValidationFailed(ValidationError),
    /// The verified payload did not decode to the expected value.
    InvalidPayload,
    /// The runtime rejected the transaction or block.
    RuntimeError(RuntimeError),
    /// A storage operation failed.
    StorageError(String),
    /// Not configured as a block producer.
    NotProducer,
    /// A network operation failed.
    NetworkError(String),
}

/// Whether enveloped bytes carry a decodable transaction: the data prefix
/// is exactly one transaction encoding.
pub open spec fn envelope_tx(payload: Seq<u8>, t: TransactionView) -> bool {
    &&& exists|rest: Seq<u8>| envelope_data(payload) == spec_encode_tx(t) + rest
}

/// Whether the envelope's data prefix decodes as a transaction that the
/// runtime admits: it begins with the encoding of a transaction, within the
/// codec's length bounds, whose nonce extends the sender's sequence and
/// whose amount is covered.
pub open spec fn admissible_tx_payload(rt: Runtime, payload: Seq<u8>) -> bool {
    exists|t: TransactionView, rest: Seq<u8>|
        envelope_data(payload) == #[trigger] (spec_encode_tx(t) + rest) && t.payload.len()
            <= u64::MAX && t.signature.len() <= u64::MAX && rt.nonce_ok(t) && rt.balance_ok(t)
}

/// Ingest a raw transaction payload: verify the envelope signature, decode
/// the transaction, and submit it to the mempool. Succeeds exactly on
/// correctly signed envelopes whose data is an admissible transaction
/// encoding; on success the admitted transaction is returned for
/// re-broadcast, and nothing changes on any error.
pub fn ingest_transaction(rt: &mut Runtime, payload: &[u8]) -> (r: Result<Transaction, NodeError>)
    requires
        old(rt).wf(),
    ensures
        final(rt).wf(),
        r is Ok <==> payload@.len() >= 96 && envelope_accepted(payload@) && admissible_tx_payload(
            *old(rt),
            payload@,
        ),
        payload@.len() < 96 ==> (r matches Err(e) && e matches NodeError::ValidationFailed(v) && v
            == (ValidationError::InvalidFormat { length: payload@.len() as usize })),
        payload@.len() >= 96 && !envelope_accepted(payload@) ==> (r matches Err(e)
            && e is ValidationFailed),
        r matches Ok(tx) ==> {
            &&& envelope_tx(payload@, tx@)
            &&& old(rt).nonce_ok(tx@) && old(rt).balance_ok(tx@)
            &&& txs_view(final(rt).mempool@) == txs_view(old(rt).mempool@).push(tx@)
            &&& final(rt).state == old(rt).state
            &&& final(rt).last_block_hash == old(rt).last_block_hash
        },
        r is Err ==> *final(rt) == *old(rt),
{
    let verified = match verify_transaction(payload) {
        Ok(v) => v,
        Err(e) => {
            return Err(NodeError::ValidationFailed(e));
        },
    };
    let ghost data = verified.data@;
    proof {
        assert(data.skip(0) =~= data);
    }
    let (tx, _used) = match decode_transaction(verified.data(), 0) {
        Some(x) => x,
        None => {
            proof {
                assert forall|t: TransactionView, rest: Seq<u8>|
                    !(envelope_data(payload@) == #[trigger] (spec_encode_tx(t) + rest)
                        && t.payload.len() <= u64::MAX && t.signature.len() <= u64::MAX && old(
                        rt,
                    ).nonce_ok(t) && old(rt).balance_ok(t)) by {
                    if envelope_data(payload@) == spec_encode_tx(t) + rest && t.payload.len()
                        <= u64::MAX && t.signature.len() <= u64::MAX {
                        assert(data.skip(0) == spec_encode_tx(t) + rest);
                    }
                }
            }
            return Err(NodeError::InvalidPayload);
        },
    };
    let ghost txv = tx@;
    let echo = tx.clone();
    match rt.submit_transaction(tx) {
        Ok(()) => {},
        Err(e) => {
            proof {
                assert forall|t: TransactionView, rest: Seq<u8>|
                    !(envelope_data(payload@) == #[trigger] (spec_encode_tx(t) + rest)
                        && t.payload.len() <= u64::MAX && t.signature.len() <= u64::MAX && old(
                        rt,
                    ).nonce_ok(t) && old(rt).balance_ok(t)) by {
                    if envelope_data(payload@) == spec_encode_tx(t) + rest && t.payload.len()
                        <= u64::MAX && t.signature.len() <= u64::MAX {
                        assert(data.skip(0) == spec_encode_tx(t) + rest);
                        assert(txv == t);
                    }
                }
            }
            return Err(NodeError::RuntimeError(e));
        },
    }
    proof {
        axiom_spec_len(&echo.payload);
        axiom_spec_len(&echo.signature);
        let tail = envelope_data(payload@).skip(spec_encode_tx(txv).len() as int);
        assert(envelope_data(payload@) =~= spec_encode_tx(txv) + tail);
        assert(admissible_tx_payload(*old(rt), payload@));
        assert(txs_view(rt.mempool@) =~= txs_view(old(rt).mempool@).push(txv));
    }
    Ok(echo)
}

/// Whether enveloped bytes carry a decodable block.
pub open spec fn envelope_block(payload: Seq<u8>, b: BlockView) -> bool {
    exists|rest: Seq<u8>| envelope_data(payload) == spec_encode_block(b) + rest
}

/// Whether a block view is within the codec's length bounds.
pub open spec fn block_len_ok(b: BlockView) -> bool {
    b.txs.len() <= u64::MAX && txs_len_ok(b.txs) && b.signature.len() <= u64::MAX
}

/// Whether every transaction of a block passes the runtime's admission
/// checks against the current state and mempool.
pub open spec fn all_txs_admissible(rt: Runtime, txs: Seq<TransactionView>) -> bool {
    forall|i: int| 0 <= i < txs.len() ==> rt.nonce_ok(#[trigger] txs[i]) && rt.balance_ok(txs[i])
}

/// Whether the envelope's data prefix decodes as a block the runtime
/// accepts and can apply in full: right height, right parent, every
/// transaction admissible, and the whole chain applicable in order.
pub open spec fn applicable_block_payload(rt: Runtime, payload: Seq<u8>) -> bool {
    exists|b: BlockView, rest: Seq<u8>|
        envelope_data(payload) == #[trigger] (spec_encode_block(b) + rest) && block_len_ok(b)
            && b.height == rt.state.height + 1 && b.parent_hash@ == rt.last_block_hash@
            && all_txs_admissible(rt, b.txs) && chain_applies(rt.state@, b.txs)
}

/// Whether `post` is `pre` after a block payload failed partway through
/// application: some prefix of the block's transactions is applied, and the
/// header fields and mempool are unchanged.
pub open spec fn block_partially_applied(pre: Runtime, post: Runtime, payload: Seq<u8>) -> bool {
    exists|b: BlockView, rest: Seq<u8>|
        envelope_data(payload) == #[trigger] (spec_encode_block(b) + rest) && (exists|i: int|
            {
                &&& 0 <= i < b.txs.len()
                &&& chain_applies(pre.state@, b.txs.take(i))
                &&& !tx_applies(spec_apply_chain(pre.state@, b.txs.take(i)), b.txs[i])
                &&& post.state@.balances == spec_apply_chain(pre.state@, b.txs.take(i)).balances
                &&& post.state@.nonces == spec_apply_chain(pre.state@, b.txs.take(i)).nonces
            }) && post.state.height == pre.state.height && post.state.state_root
            == pre.state.state_root && post.last_block_hash == pre.last_block_hash && post.mempool
            == pre.mempool
}

/// Ingest a raw block payload: verify the envelope signature, decode the
/// block, validate it against the runtime, and apply it. Succeeds exactly
/// on correctly signed envelopes whose data is a block at the next height,
/// on the right parent, whose transactions are admissible and apply in
/// order. On success the applied block is returned for persistence and
/// re-broadcast; on error the runtime is unchanged, except when
/// application itself failed partway, which leaves exactly the appliable
/// prefix applied.
pub fn ingest_block(rt: &mut Runtime, payload: &[u8]) -> (r: Result<Block, NodeError>)
    requires
        old(rt).wf(),
        old(rt).state.height < u64::MAX,
    ensures
        final(rt).wf(),
        r is Ok <==> payload@.len() >= 96 && envelope_accepted(payload@)
            && applicable_block_payload(*old(rt), payload@),
        payload@.len() < 96 ==> (r matches Err(e) && e matches NodeError::ValidationFailed(v) && v
            == (ValidationError::InvalidFormat { length: payload@.len() as usize })),
        payload@.len() >= 96 && !envelope_accepted(payload@) ==> (r matches Err(e)
            && e is ValidationFailed),
        r matches Ok(b) ==> {
            &&& envelope_block(payload@, b@)
            &&& b.height == old(rt).state.height + 1
            &&& b.parent_hash@ == old(rt).last_block_hash@
            &&& chain_applies(old(rt).state@, b@.txs)
            &&& final(rt).state@.balances == spec_apply_chain(old(rt).state@, b@.txs).balances
            &&& final(rt).state@.nonces == spec_apply_chain(old(rt).state@, b@.txs).nonces
            &&& final(rt).state.height == b.height
            &&& final(rt).last_block_hash@ == crate::block::spec_block_hash(b@)
            &&& final(rt).mempool == old(rt).mempool
        },
        r is Err ==> *final(rt) == *old(rt) || block_partially_applied(
            *old(rt),
            *final(rt),
            payload@,
        ),
{
    let verified = match verify_block(payload) {
        Ok(v) => v,
        Err(e) => {
            return Err(NodeError::ValidationFailed(e));
        },
    };
    let ghost data = verified.data@;
    proof {
        assert(data.skip(0) =~= data);
    }
    let (block, _used) = match decode_block(verified.data(), 0) {
        Some(x) => x,
        None => {
            proof {
                assert forall|b: BlockView, rest: Seq<u8>|
                    !(envelope_data(payload@) == #[trigger] (spec_encode_block(b) + rest)
                        && block_len_ok(b) && b.height == old(rt).state.height + 1
                        && b.parent_hash@ == old(rt).last_block_hash@ && all_txs_admissible(
                        *old(rt),
                        b.txs,
                    ) && chain_applies(old(rt).state@, b.txs)) by {
                    if envelope_data(payload@) == spec_encode_block(b) + rest && block_len_ok(b) {
                        assert(data.skip(0) == spec_encode_block(b) + rest);
                    }
                }
            }
            return Err(NodeError::InvalidPayload);
        },
    };
    let ghost bv = block@;
    match rt.validate_block(&block) {
        Ok(()) => {},
        Err(e) => {
            proof {
                assert forall|b: BlockView, rest: Seq<u8>|
                    !(envelope_data(payload@) == #[trigger] (spec_encode_block(b) + rest)
                        && block_len_ok(b) && b.height == old(rt).state.height + 1
                        && b.parent_hash@ == old(rt).last_block_hash@ && all_txs_admissible(
                        *old(rt),
                        b.txs,
                    ) && chain_applies(old(rt).state@, b.txs)) by {
                    if envelope_data(payload@) == spec_encode_block(b) + rest && block_len_ok(b) {
                        assert(data.skip(0) == spec_encode_block(b) + rest);
                        assert(bv == b);
                    }
                }
            }
            return Err(NodeError::RuntimeError(e));
        },
    }
    match rt.apply_block(&block) {
        Ok(()) => {},
        Err(e) => {
            proof {
                assert forall|b: BlockView, rest: Seq<u8>|
                    !(envelope_data(payload@) == #[trigger] (spec_encode_block(b) + rest)
                        && block_len_ok(b) && b.height == old(rt).state.height + 1
                        && b.parent_hash@ == old(rt).last_block_hash@ && all_txs_admissible(
                        *old(rt),
                        b.txs,
                    ) && chain_applies(old(rt).state@, b.txs)) by {
                    if envelope_data(payload@) == spec_encode_block(b) + rest && block_len_ok(b) {
                        assert(data.skip(0) == spec_encode_block(b) + rest);
                        assert(bv == b);
                    }
                }
                let tail = envelope_data(payload@).skip(spec_encode_block(bv).len() as int);
                assert(envelope_data(payload@) =~= spec_encode_block(bv) + tail);
                assert(block_partially_applied(*old(rt), *rt, payload@));
            }
            return Err(NodeError::RuntimeError(e));
        },
    }
    proof {
        let tail = envelope_data(payload@).skip(spec_encode_block(bv).len() as int);
        assert(envelope_data(payload@) =~= spec_encode_block(bv) + tail);
        axiom_spec_len(&block.txs);
        axiom_spec_len(&block.signature);
        assert forall|i: int| 0 <= i < bv.txs.len() implies (#[trigger] bv.txs[i]).payload.len()
            <= u64::MAX && bv.txs[i].signature.len() <= u64::MAX by {
            assert(bv.txs[i] == block.txs@[i]@);
            axiom_spec_len(&block.txs@[i].payload);
            axiom_spec_len(&block.txs@[i].signature);
        }
        assert(applicable_block_payload(*old(rt), payload@));
    }
    Ok(block)
}

/// Derive a 32-byte node identity from an optional producer key: the
/// key's leading bytes, zero-padded; all zeros when no key is configured.
pub fn derive_node_id(producer_key: &Option<Vec<u8>>) -> (r: [u8; 32])
    ensures
        producer_key matches Some(k) ==> (forall|i: int|
            0 <= i < 32 ==> r@[i] == (if i < k@.len() {
                k@[i]
            } else {
                0u8
            })),
        producer_key is None ==> r@ == Seq::new(32, |i: int| 0u8),
{
    let mut id = [0u8; 32];
    match producer_key {
        Some(key) => {
            let n = key.len();
            let limit = if n < 32 {
                n
            } else {
                32
            };
            let mut i: usize = 0;
            while i < limit
                invariant
                    0 <= i <= limit <= 32,
                    limit <= key@.len(),
                    id@.len() == 32,
                    forall|j: int| 0 <= j < i ==> id@[j] == key@[j],
                    forall|j: int| i <= j < 32 ==> id@[j] == 0u8,
                    limit == (if key@.len() < 32 {
                        key@.len() as int
                    } else {
                        32
                    }),
                decreases limit - i,
            {
                vstd::array::ArrayAdditionalExecFns::set(&mut id, i, key[i]);
                i += 1;
            }
            id
        },
        None => {
            proof {
                assert(id@ =~= Seq::new(32, |i: int| 0u8));
            }
            id
        },
    }
}

} // verus!
