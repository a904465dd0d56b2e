//! The deterministic execution engine: mempool admission, block production,
//! block validation and block application.
//!
//! Every operation is a pure function of the runtime's state and its
//! arguments; the determinism law at the end states it.

use vstd::prelude::*;
use crate::block::{spec_block_hash, txs_view, Block, BlockView};
use crate::bytes::{bytes32_eq, lemma_bytes32_ext};
use crate::state::{spec_state_root, zero_root, State, StateView};
use crate::tx::{Transaction, TransactionView};

verus! {

/// Errors of runtime execution.
#[derive(Clone, Debug, PartialEq, Eq)]
pub enum RuntimeError {
    /// Transaction admission failed: the sender cannot cover the amount.
    InvalidTransaction { available: u64, needed: u64 },
    /// Block validation failed: the parent hash does not match.
    InvalidBlock { expected_parent: [u8; 32], got_parent: [u8; 32] },
    /// A transaction cannot be applied to the current state.
    StateTransitionFailed { nonce: u64 },
    /// Block height mismatch.
    HeightMismatch { expected: u64, got: u64 },
    /// Duplicate or out-of-order nonce.
    DuplicateNonce { nonce: u64 },
}

/// The number of mempool transactions sent by `from`.
pub open spec fn count_from(txs: Seq<TransactionView>, from: [u8; 32]) -> int
    decreases txs.len(),
{
    if txs.len() == 0 {
        0
    } else {
        count_from(txs.drop_last(), from) + (if txs.last().from == from {
            1int
        } else {
            0int
        })
    }
}

/// The total amount of mempool transactions sent by `from`.
pub open spec fn sum_from(txs: Seq<TransactionView>, from: [u8; 32]) -> int
    decreases txs.len(),
{
    if txs.len() == 0 {
        0
    } else {
        sum_from(txs.drop_last(), from) + (if txs.last().from == from {
            txs.last().amount as int
        } else {
            0int
        })
    }
}

/// The balance still spendable after the pending mempool amounts, with
/// saturation at zero.
pub open spec fn spec_available(balance: u64, pending: int) -> int {
    if pending >= balance {
        0
    } else {
        balance - pending
    }
}

/// The value of a finite map at `a`, zero when absent.
pub open spec fn map_value(m: Map<[u8; 32], u64>, a: [u8; 32]) -> u64 {
    if m.dom().contains(a) {
        m[a]
    } else {
        0
    }
}

/// Whether a transaction can be applied to a state: the sender covers the
/// amount, the credit does not overflow, and the nonce can increment.
pub open spec fn tx_applies(s: StateView, tx: TransactionView) -> bool {
    &&& tx.amount <= map_value(s.balances, tx.from)
    &&& (tx.to == tx.from || map_value(s.balances, tx.to) + tx.amount <= u64::MAX)
    &&& map_value(s.nonces, tx.from) < u64::MAX
}

/// The state after applying a transaction: debit the sender, credit the
/// recipient, increment the sender's nonce.
pub open spec fn spec_apply_tx(s: StateView, tx: TransactionView) -> StateView {
    let debited = s.balances.insert(tx.from, (map_value(s.balances, tx.from) - tx.amount) as u64);
    let credited = debited.insert(tx.to, (map_value(debited, tx.to) + tx.amount) as u64);
    StateView {
        height: s.height,
        state_root: s.state_root,
        balances: credited,
        nonces: s.nonces.insert(tx.from, (map_value(s.nonces, tx.from) + 1) as u64),
    }
}

/// The state after applying a sequence of transactions in order, skipping
/// any that cannot be applied.
pub open spec fn spec_apply_chain(s: StateView, txs: Seq<TransactionView>) -> StateView
    decreases txs.len(),
{
    if txs.len() == 0 {
        s
    } else {
        let prev = spec_apply_chain(s, txs.drop_last());
        if tx_applies(prev, txs.last()) {
            spec_apply_tx(prev, txs.last())
        } else {
            prev
        }
    }
}

/// Whether every transaction in the sequence applies, in order.
pub open spec fn chain_applies(s: StateView, txs: Seq<TransactionView>) -> bool
    decreases txs.len(),
{
    if txs.len() == 0 {
        true
    } else {
        chain_applies(s, txs.drop_last()) && tx_applies(
            spec_apply_chain(s, txs.drop_last()),
            txs.last(),
        )
    }
}

/// The core runtime execution engine.
pub struct Runtime {
    /// Current blockchain state.
    pub state: State,
    /// Pending transactions (mempool), in admission order.
    pub mempool: Vec<Transaction>,
    /// Last finalized block hash.
    pub last_block_hash: [u8; 32],
}

impl Runtime {
    /// Well-formedness: the state's account vectors are well-formed.
    pub open spec fn wf(&self) -> bool {
        self.state.wf()
    }

    /// The views of the pending transactions.
    pub open spec fn mempool_view(&self) -> Seq<TransactionView> {
        txs_view(self.mempool@)
    }

    /// Whether a transaction's nonce extends the committed sequence plus
    /// the pending mempool transactions of its sender.
    pub open spec fn nonce_ok(&self, tx: TransactionView) -> bool {
        tx.nonce as int == self.state.spec_nonce(tx.from) as int + count_from(
            self.mempool_view(),
            tx.from,
        )
    }

    /// Whether a transaction's amount is covered by the sender's balance
    /// after the pending mempool amounts.
    pub open spec fn balance_ok(&self, tx: TransactionView) -> bool {
        tx.amount as int <= spec_available(
            self.state.spec_balance(tx.from),
            sum_from(self.mempool_view(), tx.from),
        )
    }

    /// Create a new runtime with genesis state.
    pub fn new() -> (r: Self)
        ensures
            r.wf(),
            r.state.height == 0,
            r.state.state_root@ == zero_root(),
            r.state.balances@ == Seq::<crate::state::AccountEntry>::empty(),
            r.state.nonces@ == Seq::<crate::state::AccountEntry>::empty(),
            r.mempool@ == Seq::<Transaction>::empty(),
            exists|g: BlockView| is_genesis_view(g) && r.last_block_hash@ == spec_block_hash(g),
    {
        let genesis = Block::genesis();
        let h = genesis.hash();
        proof {
            assert(is_genesis_view(genesis@) && h@ == spec_block_hash(genesis@));
        }
        Runtime { state: State::new(), mempool: Vec::new(), last_block_hash: h }
    }

    /// Create a runtime with existing state, for restart recovery.
    pub fn with_state(state: State, last_block_hash: [u8; 32]) -> (r: Self)
        ensures
            r.state == state,
            r.mempool@ == Seq::<Transaction>::empty(),
            r.last_block_hash == last_block_hash,
    {
        Runtime { state, mempool: Vec::new(), last_block_hash }
    }

    /// Validate a transaction against the current state and mempool: the
    /// nonce must extend the sender's sequence, and the amount must be
    /// covered by the balance net of pending amounts.
    pub fn validate_transaction(&self, tx: &Transaction) -> (r: Result<(), RuntimeError>)
        requires
            self.wf(),
        ensures
            r is Ok <==> self.nonce_ok(tx@) && self.balance_ok(tx@),
            !self.nonce_ok(tx@) ==> r == Err::<(), RuntimeError>(
                RuntimeError::DuplicateNonce { nonce: tx.nonce },
            ),
            self.nonce_ok(tx@) && !self.balance_ok(tx@) ==> r == Err::<(), RuntimeError>(
                RuntimeError::InvalidTransaction {
                    available: spec_available(
                        self.state.spec_balance(tx@.from),
                        sum_from(self.mempool_view(), tx@.from),
                    ) as u64,
                    needed: tx.amount,
                },
            ),
    {
        let n = self.mempool.len();
        let mut count: u64 = 0;
        let mut pending: u64 = 0;
        let mut i: usize = 0;
        proof {
            assert(self.mempool_view().take(0) =~= Seq::<TransactionView>::empty());
        }
        while i < n
            invariant
                0 <= i <= n,
                n == self.mempool@.len(),
                count as int == count_from(self.mempool_view().take(i as int), tx@.from),
                count as int <= i,
                pending as int == clamp_u64(sum_from(self.mempool_view().take(i as int), tx@.from)),
            decreases n - i,
        {
            proof {
                let mv = self.mempool_view();
                assert(mv.take(i + 1).drop_last() =~= mv.take(i as int));
                assert(mv.take(i + 1).last() == mv[i as int]);
                lemma_sum_from_nonneg(mv.take(i as int), tx@.from);
            }
            if bytes32_eq(&self.mempool[i].from, &tx.from) {
                proof {
                    lemma_bytes32_ext(self.mempool@[i as int].from, tx.from);
                }
                count = count + 1;
                pending = pending.saturating_add(self.mempool[i].amount);
            }
            i += 1;
        }
        proof {
            assert(self.mempool_view().take(n as int) =~= self.mempool_view());
            lemma_sum_from_nonneg(self.mempool_view(), tx@.from);
        }
        let base = self.state.nonce(&tx.from);
        if tx.nonce < base || tx.nonce - base != count {
            return Err(RuntimeError::DuplicateNonce { nonce: tx.nonce });
        }
        let balance = self.state.balance(&tx.from);
        let available = balance.saturating_sub(pending);
        proof {
            assert(available as int == spec_available(
                self.state.spec_balance(tx@.from),
                sum_from(self.mempool_view(), tx@.from),
            ));
        }
        if available < tx.amount {
            return Err(RuntimeError::InvalidTransaction { available, needed: tx.amount });
        }
        Ok(())
    }

    /// Submit a transaction to the mempool; on success it is appended.
    pub fn submit_transaction(&mut self, tx: Transaction) -> (r: Result<(), RuntimeError>)
        requires
            old(self).wf(),
        ensures
            final(self).wf(),
            r is Ok <==> old(self).nonce_ok(tx@) && old(self).balance_ok(tx@),
            r is Ok ==> final(self).mempool@ == old(self).mempool@.push(tx) && final(self).state
                == old(self).state && final(self).last_block_hash == old(self).last_block_hash,
            r is Err ==> *final(self) == *old(self),
    {
        match self.validate_transaction(&tx) {
            Ok(()) => {
                self.mempool.push(tx);
                Ok(())
            },
            Err(e) => Err(e),
        }
    }

    /// Apply a single transaction to state: debit the sender, credit the
    /// recipient, increment the sender's nonce. Fails, changing nothing,
    /// when the sender cannot cover the amount, the credit would overflow,
    /// or the nonce cannot increment.
    fn apply_transaction(&mut self, tx: &Transaction) -> (r: Result<(), RuntimeError>)
        requires
            old(self).wf(),
        ensures
            final(self).wf(),
            r is Ok <==> tx_applies(old(self).state@, tx@),
            r is Ok ==> final(self).state@ == spec_apply_tx(old(self).state@, tx@),
            r is Err ==> *final(self) == *old(self),
            final(self).mempool == old(self).mempool,
            final(self).last_block_hash == old(self).last_block_hash,
            final(self).state.height == old(self).state.height,
            final(self).state.state_root == old(self).state.state_root,
    {
        let sender_balance = self.state.balance(&tx.from);
        if tx.amount > sender_balance {
            return Err(RuntimeError::StateTransitionFailed { nonce: tx.nonce });
        }
        let nonce = self.state.nonce(&tx.from);
        if nonce == u64::MAX {
            return Err(RuntimeError::StateTransitionFailed { nonce: tx.nonce });
        }
        let same = bytes32_eq(&tx.from, &tx.to);
        proof {
            if tx.from@ == tx.to@ {
                lemma_bytes32_ext(tx.from, tx.to);
            }
        }
        if !same {
            let recipient_balance = self.state.balance(&tx.to);
            if recipient_balance > u64::MAX - tx.amount {
                return Err(RuntimeError::StateTransitionFailed { nonce: tx.nonce });
            }
        }
        self.state.set_balance(&tx.from, sender_balance - tx.amount);
        let recipient_balance = self.state.balance(&tx.to);
        self.state.set_balance(&tx.to, recipient_balance + tx.amount);
        self.state.increment_nonce(&tx.from);
        Ok(())
    }

    /// Produce a new block at an explicit timestamp: drain the mempool in
    /// admission order (that order is the canonical block order), apply
    /// each transaction (skipping any that no longer applies), advance the
    /// height, recompute the state root, and chain the block to the cached
    /// last block hash.
    pub fn produce_block_at(&mut self, producer: [u8; 32], timestamp: u64) -> (r: Block)
        requires
            old(self).wf(),
            old(self).state.height < u64::MAX,
        ensures
            final(self).wf(),
            r@.height == old(self).state.height + 1,
            r@.parent_hash == old(self).last_block_hash,
            r@.state_root@ == spec_state_root((old(self).state.height + 1) as u64),
            r@.timestamp == timestamp,
            r@.txs == old(self).mempool_view(),
            r@.producer == producer,
            r@.signature == crate::tx::zero_signature(),
            final(self).mempool@ == Seq::<Transaction>::empty(),
            final(self).state.height == old(self).state.height + 1,
            final(self).state.state_root@ == spec_state_root((old(self).state.height + 1) as u64),
            final(self).state@.balances == spec_apply_chain(
                old(self).state@,
                old(self).mempool_view(),
            ).balances,
            final(self).state@.nonces == spec_apply_chain(
                old(self).state@,
                old(self).mempool_view(),
            ).nonces,
            final(self).last_block_hash@ == spec_block_hash(r@),
    {
        let ghost mv = old(self).mempool_view();
        let mut txs: Vec<Transaction> = Vec::new();
        core::mem::swap(&mut txs, &mut self.mempool);
        let n = txs.len();
        let mut i: usize = 0;
        proof {
            assert(mv.take(0) =~= Seq::<TransactionView>::empty());
        }
        while i < n
            invariant
                0 <= i <= n,
                n == txs@.len(),
                txs_view(txs@) == mv,
                self.wf(),
                self.state@.balances == spec_apply_chain(old(self).state@, mv.take(i as int)).balances,
                self.state@.nonces == spec_apply_chain(old(self).state@, mv.take(i as int)).nonces,
                self.state.height == old(self).state.height,
                self.state.state_root == old(self).state.state_root,
                self.mempool@ == Seq::<Transaction>::empty(),
                self.last_block_hash == old(self).last_block_hash,
            decreases n - i,
        {
            proof {
                assert(mv.take(i + 1).drop_last() =~= mv.take(i as int));
                assert(mv.take(i + 1).last() == mv[i as int]);
                assert(mv[i as int] == txs@[i as int]@);
                lemma_chain_preserves_header(old(self).state@, mv.take(i as int));
                lemma_state_view_parts(self.state@, spec_apply_chain(old(self).state@, mv.take(i as int)));
            }
            let _ = self.apply_transaction(&txs[i]);
            i += 1;
        }
        proof {
            assert(mv.take(n as int) =~= mv);
        }
        self.state.height = self.state.height + 1;
        self.state.compute_state_root();
        let block = Block::with_timestamp(
            self.state.height,
            self.last_block_hash,
            self.state.state_root,
            timestamp,
            txs,
            producer,
        );
        let h = block.hash();
        self.last_block_hash = h;
        block
    }

    /// Produce a new block from pending transactions, stamped with the
    /// current wall-clock time.
    pub fn produce_block(&mut self, producer: [u8; 32]) -> (r: Block)
        requires
            old(self).wf(),
            old(self).state.height < u64::MAX,
        ensures
            final(self).wf(),
            r@.height == old(self).state.height + 1,
            r@.parent_hash == old(self).last_block_hash,
            r@.state_root@ == spec_state_root((old(self).state.height + 1) as u64),
            r@.txs == old(self).mempool_view(),
            r@.producer == producer,
            r@.signature == crate::tx::zero_signature(),
            final(self).mempool@ == Seq::<Transaction>::empty(),
            final(self).state.height == old(self).state.height + 1,
            final(self).state@.balances == spec_apply_chain(
                old(self).state@,
                old(self).mempool_view(),
            ).balances,
            final(self).state@.nonces == spec_apply_chain(
                old(self).state@,
                old(self).mempool_view(),
            ).nonces,
            final(self).last_block_hash@ == spec_block_hash(r@),
    {
        let timestamp = crate::clock::now_seconds();
        self.produce_block_at(producer, timestamp)
    }

    /// Validate a block from the network: the height must be exactly the
    /// current height plus one, the parent hash must match, and every
    /// transaction must pass `validate_transaction` against the current
    /// state and mempool.
    pub fn validate_block(&self, block: &Block) -> (r: Result<(), RuntimeError>)
        requires
            self.wf(),
            self.state.height < u64::MAX,
        ensures
            r is Ok <==> block.height == self.state.height + 1 && block.parent_hash@
                == self.last_block_hash@ && (forall|i: int|
                0 <= i < block@.txs.len() ==> self.nonce_ok(#[trigger] block@.txs[i])
                    && self.balance_ok(block@.txs[i])),
            block.height != self.state.height + 1 ==> r == Err::<(), RuntimeError>(
                RuntimeError::HeightMismatch {
                    expected: (self.state.height + 1) as u64,
                    got: block.height,
                },
            ),
            block.height == self.state.height + 1 && block.parent_hash@ != self.last_block_hash@
                ==> r == Err::<(), RuntimeError>(
                RuntimeError::InvalidBlock {
                    expected_parent: self.last_block_hash,
                    got_parent: block.parent_hash,
                },
            ),
    {
        let expected_height = self.state.height + 1;
        if block.height != expected_height {
            return Err(RuntimeError::HeightMismatch { expected: expected_height, got: block.height });
        }
        if !bytes32_eq(&block.parent_hash, &self.last_block_hash) {
            return Err(RuntimeError::InvalidBlock {
                expected_parent: self.last_block_hash,
                got_parent: block.parent_hash,
            });
        }
        let n = block.txs.len();
        let mut i: usize = 0;
        while i < n
            invariant
                0 <= i <= n,
                n == block.txs@.len(),
                self.wf(),
                self.state.height < u64::MAX,
                block.height == self.state.height + 1,
                block.parent_hash@ == self.last_block_hash@,
                forall|k: int|
                    0 <= k < i ==> self.nonce_ok(#[trigger] block@.txs[k]) && self.balance_ok(
                        block@.txs[k],
                    ),
            decreases n - i,
        {
            match self.validate_transaction(&block.txs[i]) {
                Ok(()) => {
                    proof {
                        assert(block@.txs[i as int] == block.txs@[i as int]@);
                    }
                },
                Err(e) => {
                    proof {
                        assert(block@.txs[i as int] == block.txs@[i as int]@);
                        assert(!(self.nonce_ok(block@.txs[i as int]) && self.balance_ok(
                            block@.txs[i as int],
                        )));
                    }
                    return Err(e);
                },
            }
            i += 1;
        }
        Ok(())
    }

    /// Apply a validated block to state: apply every transaction in order,
    /// then adopt the block's height, state root and hash. Fails at the
    /// first transaction that cannot be applied, leaving the transactions
    /// before it applied and the header fields unchanged.
    pub fn apply_block(&mut self, block: &Block) -> (r: Result<(), RuntimeError>)
        requires
            old(self).wf(),
        ensures
            final(self).wf(),
            r is Ok <==> chain_applies(old(self).state@, block@.txs),
            r is Ok ==> final(self).state@.balances == spec_apply_chain(
                old(self).state@,
                block@.txs,
            ).balances && final(self).state@.nonces == spec_apply_chain(
                old(self).state@,
                block@.txs,
            ).nonces && final(self).state.height == block.height && final(self).state.state_root
                == block.state_root && final(self).last_block_hash@ == spec_block_hash(block@),
            final(self).mempool == old(self).mempool,
            r is Err ==> exists|i: int|
                {
                    &&& 0 <= i < block@.txs.len()
                    &&& chain_applies(old(self).state@, block@.txs.take(i))
                    &&& !tx_applies(
                        spec_apply_chain(old(self).state@, block@.txs.take(i)),
                        block@.txs[i],
                    )
                    &&& final(self).state@.balances == spec_apply_chain(
                        old(self).state@,
                        block@.txs.take(i),
                    ).balances
                    &&& final(self).state@.nonces == spec_apply_chain(
                        old(self).state@,
                        block@.txs.take(i),
                    ).nonces
                },
            r is Err ==> final(self).state.height == old(self).state.height,
            r is Err ==> final(self).state.state_root == old(self).state.state_root,
            r is Err ==> final(self).last_block_hash == old(self).last_block_hash,
    {
        let ghost bt = block@.txs;
        let n = block.txs.len();
        let mut i: usize = 0;
        proof {
            assert(bt.take(0) =~= Seq::<TransactionView>::empty());
        }
        while i < n
            invariant
                0 <= i <= n,
                n == block.txs@.len(),
                bt == block@.txs,
                self.wf(),
                chain_applies(old(self).state@, bt.take(i as int)),
                self.state@.balances == spec_apply_chain(old(self).state@, bt.take(i as int)).balances,
                self.state@.nonces == spec_apply_chain(old(self).state@, bt.take(i as int)).nonces,
                self.state.height == old(self).state.height,
                self.state.state_root == old(self).state.state_root,
                self.mempool == old(self).mempool,
                self.last_block_hash == old(self).last_block_hash,
            decreases n - i,
        {
            proof {
                assert(bt.take(i + 1).drop_last() =~= bt.take(i as int));
                assert(bt.take(i + 1).last() == bt[i as int]);
                assert(bt[i as int] == block.txs@[i as int]@);
                lemma_chain_preserves_header(old(self).state@, bt.take(i as int));
                lemma_state_view_parts(self.state@, spec_apply_chain(old(self).state@, bt.take(i as int)));
            }
            match self.apply_transaction(&block.txs[i]) {
                Ok(()) => {},
                Err(_) => {
                    proof {
                        lemma_chain_applies_prefix(old(self).state@, bt, i as int);
                    }
                    return Err(RuntimeError::StateTransitionFailed {
                        nonce: block.txs[i].nonce,
                    });
                },
            }
            i += 1;
        }
        proof {
            assert(bt.take(n as int) =~= bt);
        }
        self.state.height = block.height;
        self.state.state_root = block.state_root;
        let h = block.hash();
        self.last_block_hash = h;
        Ok(())
    }

    /// Get current block height.
    pub fn height(&self) -> (r: u64)
        ensures
            r == self.state.height,
    {
        self.state.height
    }

    /// Get the number of pending transactions.
    pub fn mempool_size(&self) -> (r: usize)
        ensures
            r == self.mempool@.len(),
    {
        self.mempool.len()
    }

    /// Get the last block hash.
    pub fn last_block_hash(&self) -> (r: [u8; 32])
        ensures
            r == self.last_block_hash,
    {
        self.last_block_hash
    }

    /// Clear the mempool.
    pub fn clear_mempool(&mut self)
        ensures
            final(self).mempool@ == Seq::<Transaction>::empty(),
            final(self).state == old(self).state,
            final(self).last_block_hash == old(self).last_block_hash,
    {
        self.mempool.clear();
    }
}

impl Default for Runtime {
    fn default() -> (r: Self)
        ensures
            r.wf(),
            r.state.height == 0,
            r.mempool@ == Seq::<Transaction>::empty(),
    {
        Runtime::new()
    }
}

/// The clamp of an integer to the u64 range from above.
pub open spec fn clamp_u64(x: int) -> int {
    if x > u64::MAX {
        u64::MAX as int
    } else {
        x
    }
}

proof fn lemma_sum_from_nonneg(txs: Seq<TransactionView>, from: [u8; 32])
    ensures
        sum_from(txs, from) >= 0,
        count_from(txs, from) >= 0,
    decreases txs.len(),
{
    if txs.len() > 0 {
        lemma_sum_from_nonneg(txs.drop_last(), from);
    }
}

/// Two state views that agree on balances and nonces and on the concrete
/// height and root fields are equal.
proof fn lemma_state_view_parts(a: StateView, b: StateView)
    requires
        a.balances == b.balances,
        a.nonces == b.nonces,
        a.height == b.height,
        a.state_root == b.state_root,
    ensures
        a == b,
{
}

proof fn lemma_chain_applies_prefix(s: StateView, txs: Seq<TransactionView>, i: int)
    requires
        0 <= i < txs.len(),
        chain_applies(s, txs.take(i)),
        !tx_applies(spec_apply_chain(s, txs.take(i)), txs[i]),
    ensures
        !chain_applies(s, txs),
    decreases txs.len() - i,
{
    if i == txs.len() - 1 {
        assert(txs.drop_last() =~= txs.take(i));
    } else {
        if chain_applies(s, txs) {
            lemma_chain_applies_take(s, txs, i + 1);
            assert(txs.take(i + 1).drop_last() =~= txs.take(i));
            assert(txs.take(i + 1).last() == txs[i]);
        }
    }
}

proof fn lemma_chain_applies_take(s: StateView, txs: Seq<TransactionView>, i: int)
    requires
        0 <= i <= txs.len(),
        chain_applies(s, txs),
    ensures
        chain_applies(s, txs.take(i)),
    decreases txs.len(),
{
    if i < txs.len() {
        if txs.len() > 0 {
            assert(txs.drop_last().take(i) =~= txs.take(i));
            lemma_chain_applies_take(s, txs.drop_last(), i);
        }
    } else {
        assert(txs.take(i) =~= txs);
    }
}

/// Law: runtime determinism. The block produced and the resulting balances
/// and nonces are pure functions of the starting state, the ordered
/// mempool, the producer and the timestamp; two runtimes with equal
/// starting states and identical ordered transaction sequences produce, at
/// one timestamp, blocks equal in every field (the signature is not yet
/// set) and equal account maps. The per-field claims are the ensures of
/// `produce_block_at`; this law closes them into block-view equality.
pub proof fn lemma_runtime_determinism(a: BlockView, b: BlockView)
    requires
        a.height == b.height,
        a.parent_hash@ == b.parent_hash@,
        a.state_root@ == b.state_root@,
        a.timestamp == b.timestamp,
        a.txs == b.txs,
        a.producer@ == b.producer@,
        a.signature == b.signature,
    ensures
        a == b,
        spec_block_hash(a) == spec_block_hash(b),
{
    lemma_bytes32_ext(a.parent_hash, b.parent_hash);
    lemma_bytes32_ext(a.state_root, b.state_root);
    lemma_bytes32_ext(a.producer, b.producer);
}

/// Whether a block view is the genesis block: height 0, timestamp 0, no
/// transactions, all hashes and the producer zero, unsigned.
pub open spec fn is_genesis_view(g: BlockView) -> bool {
    &&& g.height == 0
    &&& g.timestamp == 0
    &&& g.txs == Seq::<TransactionView>::empty()
    &&& g.signature == crate::tx::zero_signature()
    &&& g.parent_hash@ == Seq::new(32, |i: int| 0u8)
    &&& g.state_root@ == Seq::new(32, |i: int| 0u8)
    &&& g.producer@ == Seq::new(32, |i: int| 0u8)
}

/// Spec helper: the header fields survive a chain of applications.
pub proof fn lemma_chain_preserves_header(s: StateView, txs: Seq<TransactionView>)
    ensures
        spec_apply_chain(s, txs).height == s.height,
        spec_apply_chain(s, txs).state_root == s.state_root,
    decreases txs.len(),
{
    if txs.len() > 0 {
        lemma_chain_preserves_header(s, txs.drop_last());
    }
}

} // verus!
