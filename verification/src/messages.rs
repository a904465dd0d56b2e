//! Consensus messages and per-round vote accounting: proposals, prevotes,
//! commits, their canonical signing payloads, the vote aggregators, the
//! finality certificate and the round state machine.

use vstd::prelude::*;
use vstd::bytes::spec_u64_to_le_bytes;
use crate::bytes::{bytes32_eq, push_bytes32, push_u64_le};
use crate::validators::{
    BlockHash,
    StateRoot,
    Signature64,
    Validator,
    ValidatorId,
    ValidatorSet,
    weight_sum,
};

verus! {

/// Consensus round phase.
#[derive(Clone, Copy, Debug, PartialEq, Eq, Structural)]
pub enum Phase {
    /// Waiting for proposal from the leader.
    Propose,
    /// Voting on proposal validity.
    Prevote,
    /// Committing to finalize.
    Commit,
    /// Round completed (success or timeout).
    Completed,
}

/// A block proposal from the round leader.
pub struct Proposal {
    /// Block height.
    pub height: u64,
    /// Consensus round number.
    pub round: u64,
    /// Hash of the previous block.
    pub prev_hash: BlockHash,
    /// Proposed block hash.
    pub block_hash: BlockHash,
    /// State root after executing transactions.
    pub state_root: StateRoot,
    /// Serialized transactions (opaque to consensus).
    pub transactions: Vec<u8>,
    /// Proposer's validator ID.
    pub proposer: ValidatorId,
    /// Signature over the proposal.
    pub signature: Signature64,
}

/// The mathematical value of a proposal.
pub ghost struct ProposalView {
    pub height: u64,
    pub round: u64,
    pub prev_hash: BlockHash,
    pub block_hash: BlockHash,
    pub state_root: StateRoot,
    pub transactions: Seq<u8>,
    pub proposer: ValidatorId,
    pub signature: Signature64,
}

impl View for Proposal {
    type V = ProposalView;

    open spec fn view(&self) -> ProposalView {
        ProposalView {
            height: self.height,
            round: self.round,
            prev_hash: self.prev_hash,
            block_hash: self.block_hash,
            state_root: self.state_root,
            transactions: self.transactions@,
            proposer: self.proposer,
            signature: self.signature,
        }
    }
}

impl Clone for Proposal {
    fn clone(&self) -> (r: Self)
        ensures
            r@ == self@,
    {
        Proposal {
            height: self.height,
            round: self.round,
            prev_hash: self.prev_hash,
            block_hash: self.block_hash,
            state_root: self.state_root,
            transactions: self.transactions.clone(),
            proposer: self.proposer,
            signature: self.signature,
        }
    }
}

/// The domain-separation prefix of proposal signing payloads: "PROPOSAL".
pub open spec fn proposal_tag() -> Seq<u8> {
    seq![0x50u8, 0x52u8, 0x4fu8, 0x50u8, 0x4fu8, 0x53u8, 0x41u8, 0x4cu8]
}

/// The canonical signing payload of a proposal: a function of the content
/// fields alone, never of the signature.
pub open spec fn spec_proposal_payload(p: ProposalView) -> Seq<u8> {
    proposal_tag() + spec_u64_to_le_bytes(p.height) + spec_u64_to_le_bytes(p.round) + p.prev_hash@
        + p.block_hash@ + p.state_root@
}

impl Proposal {
    /// Create the signing payload for a proposal.
    pub fn signing_payload(&self) -> (r: Vec<u8>)
        ensures
            r@ == spec_proposal_payload(self@),
    {
        let mut payload: Vec<u8> = Vec::new();
        payload.push(0x50);
        payload.push(0x52);
        payload.push(0x4f);
        payload.push(0x50);
        payload.push(0x4f);
        payload.push(0x53);
        payload.push(0x41);
        payload.push(0x4c);
        proof {
            assert(payload@ =~= proposal_tag());
        }
        push_u64_le(&mut payload, self.height);
        push_u64_le(&mut payload, self.round);
        push_bytes32(&mut payload, &self.prev_hash);
        push_bytes32(&mut payload, &self.block_hash);
        push_bytes32(&mut payload, &self.state_root);
        payload
    }
}

/// Law: the proposal signing payload is a pure function of the content
/// fields; two proposals that agree on height, round and the three hashes
/// have the same payload, whatever their transactions, proposer or
/// signature.
pub proof fn lemma_proposal_payload_reproducible(a: ProposalView, b: ProposalView)
    requires
        a.height == b.height,
        a.round == b.round,
        a.prev_hash == b.prev_hash,
        a.block_hash == b.block_hash,
        a.state_root == b.state_root,
    ensures
        spec_proposal_payload(a) == spec_proposal_payload(b),
{
}

/// A prevote for or against a proposal.
#[derive(Clone, Copy)]
pub struct Prevote {
    /// Block height.
    pub height: u64,
    /// Consensus round.
    pub round: u64,
    /// Block hash being voted for (`None` encodes a nil vote).
    pub block_hash: Option<BlockHash>,
    /// Voter's validator ID.
    pub validator: ValidatorId,
    /// Signature over the vote.
    pub signature: Signature64,
}

/// The domain-separation prefix of prevote signing payloads: "PREVOTE".
pub open spec fn prevote_tag() -> Seq<u8> {
    seq![0x50u8, 0x52u8, 0x45u8, 0x56u8, 0x4fu8, 0x54u8, 0x45u8]
}

/// 32 zero bytes, the wire form of a nil vote's hash.
pub open spec fn zero_hash() -> Seq<u8> {
    Seq::new(32, |i: int| 0u8)
}

/// The canonical signing payload of a prevote: a function of height, round
/// and the voted hash alone; a nil vote is encoded as 32 zero bytes.
pub open spec fn spec_prevote_payload(height: u64, round: u64, block_hash: Option<
    BlockHash,
>) -> Seq<u8> {
    prevote_tag() + spec_u64_to_le_bytes(height) + spec_u64_to_le_bytes(round) + (
    match block_hash {
        Some(h) => h@,
        None => zero_hash(),
    })
}

impl Prevote {
    /// Create the signing payload for a prevote.
    pub fn signing_payload(&self) -> (r: Vec<u8>)
        ensures
            r@ == spec_prevote_payload(self.height, self.round, self.block_hash),
    {
        let mut payload: Vec<u8> = Vec::new();
        payload.push(0x50);
        payload.push(0x52);
        payload.push(0x45);
        payload.push(0x56);
        payload.push(0x4f);
        payload.push(0x54);
        payload.push(0x45);
        proof {
            assert(payload@ =~= prevote_tag());
        }
        push_u64_le(&mut payload, self.height);
        push_u64_le(&mut payload, self.round);
        match &self.block_hash {
            Some(hash) => push_bytes32(&mut payload, hash),
            None => {
                let zeros = [0u8; 32];
                proof {
                    assert(zeros@ =~= zero_hash());
                }
                push_bytes32(&mut payload, &zeros);
            },
        }
        payload
    }

    /// Check if this is a nil vote.
    pub fn is_nil(&self) -> (r: bool)
        ensures
            r <==> self.block_hash is None,
    {
        self.block_hash.is_none()
    }
}

/// Law: the prevote signing payload is a pure function of height, round
/// and voted hash; voter identity and signature do not enter it.
pub proof fn lemma_prevote_payload_reproducible(a: Prevote, b: Prevote)
    requires
        a.height == b.height,
        a.round == b.round,
        a.block_hash == b.block_hash,
    ensures
        spec_prevote_payload(a.height, a.round, a.block_hash) == spec_prevote_payload(
            b.height,
            b.round,
            b.block_hash,
        ),
{
}

/// A commit vote for finalization.
#[derive(Clone, Copy)]
pub struct Commit {
    /// Block height.
    pub height: u64,
    /// Consensus round.
    pub round: u64,
    /// Block hash being committed.
    pub block_hash: BlockHash,
    /// Committer's validator ID.
    pub validator: ValidatorId,
    /// Signature over the commit.
    pub signature: Signature64,
}

/// The domain-separation prefix of commit signing payloads: "COMMIT".
pub open spec fn commit_tag() -> Seq<u8> {
    seq![0x43u8, 0x4fu8, 0x4du8, 0x4du8, 0x49u8, 0x54u8]
}

/// The canonical signing payload of a commit: a function of height, round
/// and committed hash alone.
pub open spec fn spec_commit_payload(height: u64, round: u64, block_hash: BlockHash) -> Seq<u8> {
    commit_tag() + spec_u64_to_le_bytes(height) + spec_u64_to_le_bytes(round) + block_hash@
}

impl Commit {
    /// Create the signing payload for a commit.
    pub fn signing_payload(&self) -> (r: Vec<u8>)
        ensures
            r@ == spec_commit_payload(self.height, self.round, self.block_hash),
    {
        let mut payload: Vec<u8> = Vec::new();
        payload.push(0x43);
        payload.push(0x4f);
        payload.push(0x4d);
        payload.push(0x4d);
        payload.push(0x49);
        payload.push(0x54);
        proof {
            assert(payload@ =~= commit_tag());
        }
        push_u64_le(&mut payload, self.height);
        push_u64_le(&mut payload, self.round);
        push_bytes32(&mut payload, &self.block_hash);
        payload
    }
}

/// Law: the commit signing payload is a pure function of height, round and
/// committed hash; committer identity and signature do not enter it.
pub proof fn lemma_commit_payload_reproducible(a: Commit, b: Commit)
    requires
        a.height == b.height,
        a.round == b.round,
        a.block_hash == b.block_hash,
    ensures
        spec_commit_payload(a.height, a.round, a.block_hash) == spec_commit_payload(
            b.height,
            b.round,
            b.block_hash,
        ),
{
}

/// Aggregated commit signatures proving finality.
pub struct FinalityCertificate {
    /// Block height.
    pub height: u64,
    /// Finalized block hash.
    pub block_hash: BlockHash,
    /// Commits from validators (must have quorum weight).
    pub commits: Vec<Commit>,
    /// Total weight of commits.
    pub total_weight: u64,
}

/// The mathematical value of a finality certificate.
pub ghost struct FinalityCertificateView {
    pub height: u64,
    pub block_hash: BlockHash,
    pub commits: Seq<Commit>,
    pub total_weight: u64,
}

impl View for FinalityCertificate {
    type V = FinalityCertificateView;

    open spec fn view(&self) -> FinalityCertificateView {
        FinalityCertificateView {
            height: self.height,
            block_hash: self.block_hash,
            commits: self.commits@,
            total_weight: self.total_weight,
        }
    }
}

impl Clone for FinalityCertificate {
    fn clone(&self) -> (r: Self)
        ensures
            r@ == self@,
    {
        FinalityCertificate {
            height: self.height,
            block_hash: self.block_hash,
            commits: self.commits.clone(),
            total_weight: self.total_weight,
        }
    }
}

impl FinalityCertificate {
    /// Create a new finality certificate.
    pub fn new(height: u64, block_hash: BlockHash, commits: Vec<Commit>, total_weight: u64) -> (r:
        Self)
        ensures
            r@ == (FinalityCertificateView {
                height,
                block_hash,
                commits: commits@,
                total_weight,
            }),
    {
        FinalityCertificate { height, block_hash, commits, total_weight }
    }
}

/// Whether some prevote in `votes` was cast by `id`.
pub open spec fn has_prevoter(votes: Seq<Prevote>, id: ValidatorId) -> bool {
    exists|i: int| 0 <= i < votes.len() && votes[i].validator == id
}

/// Whether `id` prevoted for `hash` in `votes`.
pub open spec fn prevoted_for(votes: Seq<Prevote>, id: ValidatorId, hash: BlockHash) -> bool {
    exists|i: int|
        0 <= i < votes.len() && votes[i].validator == id && votes[i].block_hash == Some(hash)
}

/// The total weight of validators in `vs` that prevoted for `hash`.
pub open spec fn prevote_weight_for(votes: Seq<Prevote>, vs: Seq<Validator>, hash: BlockHash) -> int
    decreases vs.len(),
{
    if vs.len() == 0 {
        0
    } else {
        prevote_weight_for(votes, vs.drop_last(), hash) + (if prevoted_for(
            votes,
            vs.last().id,
            hash,
        ) {
            vs.last().weight as int
        } else {
            0
        })
    }
}

/// The model of adding a prevote: the new vote sequence and whether the
/// vote was new.
pub open spec fn spec_prevote_add(votes: Seq<Prevote>, v: Prevote) -> (Seq<Prevote>, bool) {
    if has_prevoter(votes, v.validator) {
        (votes, false)
    } else {
        (votes.push(v), true)
    }
}

/// Collection of prevotes for a round, at most one per validator.
pub struct PrevoteSet {
    /// The accepted prevotes, in arrival order.
    pub votes: Vec<Prevote>,
}

impl View for PrevoteSet {
    type V = Seq<Prevote>;

    open spec fn view(&self) -> Seq<Prevote> {
        self.votes@
    }
}

impl Clone for PrevoteSet {
    fn clone(&self) -> (r: Self)
        ensures
            r@ == self@,
    {
        PrevoteSet { votes: self.votes.clone() }
    }
}

impl PrevoteSet {
    /// Well-formedness: at most one vote per validator.
    pub open spec fn wf(&self) -> bool {
        forall|i: int, j: int|
            0 <= i < j < self.votes@.len() ==> self.votes@[i].validator != self.votes@[j].validator
    }

    /// Create an empty prevote set.
    pub fn new() -> (r: Self)
        ensures
            r@ == Seq::<Prevote>::empty(),
            r.wf(),
    {
        PrevoteSet { votes: Vec::new() }
    }

    /// Add a prevote; returns true exactly when the validator had not
    /// voted yet, in which case the vote is appended.
    pub fn add(&mut self, prevote: Prevote) -> (r: bool)
        requires
            old(self).wf(),
        ensures
            (final(self)@, r) == spec_prevote_add(old(self)@, prevote),
            final(self).wf(),
            !r ==> *final(self) == *old(self),
    {
        if self.has_vote(&prevote.validator) {
            return false;
        }
        self.votes.push(prevote);
        true
    }

    /// Check if this set holds a vote from the given validator.
    pub fn has_vote(&self, validator: &ValidatorId) -> (r: bool)
        ensures
            r <==> has_prevoter(self@, *validator),
    {
        let n = self.votes.len();
        let mut i: usize = 0;
        while i < n
            invariant
                0 <= i <= n,
                n == self.votes@.len(),
                forall|k: int| 0 <= k < i ==> self.votes@[k].validator != *validator,
            decreases n - i,
        {
            if bytes32_eq(&self.votes[i].validator.0, &validator.0) {
                proof {
                    assert(self.votes@[i as int].validator.0 == validator.0);
                    assert(self.votes@[i as int].validator == *validator);
                }
                return true;
            }
            i += 1;
        }
        false
    }

    /// Whether the given validator voted for the given hash.
    fn has_vote_for(&self, validator: &ValidatorId, hash: &BlockHash) -> (r: bool)
        ensures
            r <==> prevoted_for(self@, *validator, *hash),
    {
        let n = self.votes.len();
        let mut i: usize = 0;
        while i < n
            invariant
                0 <= i <= n,
                n == self.votes@.len(),
                forall|k: int|
                    0 <= k < i ==> !((#[trigger] self.votes@[k]).validator == *validator
                        && self.votes@[k].block_hash == Some(*hash)),
            decreases n - i,
        {
            let vote = &self.votes[i];
            if bytes32_eq(&vote.validator.0, &validator.0) {
                match &vote.block_hash {
                    Some(h) => {
                        if bytes32_eq(h, hash) {
                            proof {
                                assert(self.votes@[i as int].validator.0 == validator.0);
                                assert(self.votes@[i as int].validator == *validator);
                                assert(self.votes@[i as int].block_hash == Some(*hash));
                            }
                            return true;
                        }
                    },
                    None => {},
                }
            }
            i += 1;
        }
        false
    }

    /// Get the total weight of validators voting for a specific block.
    pub fn weight_for_block(&self, block_hash: &BlockHash, validator_set: &ValidatorSet) -> (r: u64)
        requires
            validator_set.wf(),
        ensures
            r as int == prevote_weight_for(self@, validator_set.spec_validators(), *block_hash),
            r <= validator_set.spec_total_weight(),
    {
        let vs = validator_set.validators();
        let n = vs.len();
        let mut total: u64 = 0;
        let mut i: usize = 0;
        proof {
            assert(vs@.take(0) =~= Seq::<Validator>::empty());
            crate::validators::lemma_weight_sum_nonneg(vs@.take(0));
        }
        while i < n
            invariant
                0 <= i <= n,
                n == vs@.len(),
                vs@ == validator_set.spec_validators(),
                validator_set.wf(),
                total as int == prevote_weight_for(self@, vs@.take(i as int), *block_hash),
                total as int <= weight_sum(vs@.take(i as int)),
            decreases n - i,
        {
            proof {
                lemma_prevote_weight_take_step(self@, vs@, *block_hash, i as int);
                crate::validators::lemma_weight_sum_take_step(vs@, i as int);
                crate::validators::lemma_weight_sum_take_bound(vs@, i + 1);
            }
            if self.has_vote_for(&vs[i].id, block_hash) {
                total = total + vs[i].weight;
            }
            i += 1;
        }
        proof {
            assert(vs@.take(n as int) =~= vs@);
        }
        total
    }

    /// Get a block hash with the greatest vote weight, if any block
    /// received votes at all.
    pub fn leading_block(&self, validator_set: &ValidatorSet) -> (r: Option<(BlockHash, u64)>)
        requires
            validator_set.wf(),
        ensures
            r is None <==> (forall|i: int|
                0 <= i < self@.len() ==> (#[trigger] self@[i]).block_hash is None),
            r matches Some((h, w)) ==> w as int == prevote_weight_for(
                self@,
                validator_set.spec_validators(),
                h,
            ) && (exists|i: int| 0 <= i < self@.len() && (#[trigger] self@[i]).block_hash == Some(h))
                && (forall|i: int|
                0 <= i < self@.len() ==> ((#[trigger] self@[i]).block_hash matches Some(g)
                    ==> prevote_weight_for(self@, validator_set.spec_validators(), g)
                    <= w as int)),
    {
        let n = self.votes.len();
        let mut best: Option<(BlockHash, u64)> = None;
        let mut i: usize = 0;
        while i < n
            invariant
                0 <= i <= n,
                n == self@.len(),
                validator_set.wf(),
                best is None <==> (forall|k: int|
                    0 <= k < i ==> (#[trigger] self@[k]).block_hash is None),
                best matches Some((h, w)) ==> w as int == prevote_weight_for(
                    self@,
                    validator_set.spec_validators(),
                    h,
                ) && (exists|k: int|
                    0 <= k < i && (#[trigger] self@[k]).block_hash == Some(h)) && (forall|k: int|
                    0 <= k < i ==> ((#[trigger] self@[k]).block_hash matches Some(g)
                        ==> prevote_weight_for(self@, validator_set.spec_validators(), g)
                        <= w as int)),
            decreases n - i,
        {
            match &self.votes[i].block_hash {
                Some(h) => {
                    let w = self.weight_for_block(h, validator_set);
                    let replace = match &best {
                        Some((_, bw)) => w > *bw,
                        None => true,
                    };
                    if replace {
                        best = Some((*h, w));
                    }
                    proof {
                        assert(self@[i as int].block_hash == Some(*h));
                    }
                },
                None => {},
            }
            i += 1;
        }
        best
    }

    /// Total votes collected.
    pub fn count(&self) -> (r: usize)
        ensures
            r == self@.len(),
    {
        self.votes.len()
    }
}

proof fn lemma_prevote_weight_take_step(
    votes: Seq<Prevote>,
    vs: Seq<Validator>,
    hash: BlockHash,
    i: int,
)
    requires
        0 <= i < vs.len(),
    ensures
        prevote_weight_for(votes, vs.take(i + 1), hash) == prevote_weight_for(
            votes,
            vs.take(i),
            hash,
        ) + (if prevoted_for(votes, vs[i].id, hash) {
            vs[i].weight as int
        } else {
            0
        }),
{
    assert(vs.take(i + 1).drop_last() =~= vs.take(i));
    assert(vs.take(i + 1).last() == vs[i]);
}

/// Law: adding a prevote reports true the first time, and false for every
/// later prevote carried by the same validator, whatever block it names.
pub proof fn lemma_prevote_add_idempotent(votes: Seq<Prevote>, v: Prevote, w: Prevote)
    requires
        w.validator == v.validator,
    ensures
        spec_prevote_add(votes, v).1 == !has_prevoter(votes, v.validator),
        spec_prevote_add(spec_prevote_add(votes, v).0, w).1 == false,
{
    let after = spec_prevote_add(votes, v).0;
    if has_prevoter(votes, v.validator) {
        let i = choose|i: int| 0 <= i < votes.len() && votes[i].validator == v.validator;
        assert(after[i].validator == w.validator);
    } else {
        assert(after[votes.len() as int].validator == w.validator);
    }
}

/// Whether some commit in `commits` was cast by `id`.
pub open spec fn has_committer(commits: Seq<Commit>, id: ValidatorId) -> bool {
    exists|i: int| 0 <= i < commits.len() && commits[i].validator == id
}

/// Whether `id` committed to `hash` in `commits`.
pub open spec fn committed_for(commits: Seq<Commit>, id: ValidatorId, hash: BlockHash) -> bool {
    exists|i: int|
        0 <= i < commits.len() && commits[i].validator == id && commits[i].block_hash == hash
}

/// The total weight of validators in `vs` that committed to `hash`.
pub open spec fn commit_weight_for(commits: Seq<Commit>, vs: Seq<Validator>, hash: BlockHash) -> int
    decreases vs.len(),
{
    if vs.len() == 0 {
        0
    } else {
        commit_weight_for(commits, vs.drop_last(), hash) + (if committed_for(
            commits,
            vs.last().id,
            hash,
        ) {
            vs.last().weight as int
        } else {
            0
        })
    }
}

/// The model of adding a commit: the new commit sequence and whether the
/// commit was new.
pub open spec fn spec_commit_add(commits: Seq<Commit>, c: Commit) -> (Seq<Commit>, bool) {
    if has_committer(commits, c.validator) {
        (commits, false)
    } else {
        (commits.push(c), true)
    }
}

/// The commits in `commits` for a given block hash, in arrival order.
pub open spec fn commits_for(commits: Seq<Commit>, hash: BlockHash) -> Seq<Commit>
    decreases commits.len(),
{
    if commits.len() == 0 {
        Seq::empty()
    } else {
        let rest = commits_for(commits.drop_last(), hash);
        if commits.last().block_hash == hash {
            rest.push(commits.last())
        } else {
            rest
        }
    }
}

proof fn lemma_commits_for_take_step(commits: Seq<Commit>, hash: BlockHash, i: int)
    requires
        0 <= i < commits.len(),
    ensures
        commits_for(commits.take(i + 1), hash) == (if commits[i].block_hash == hash {
            commits_for(commits.take(i), hash).push(commits[i])
        } else {
            commits_for(commits.take(i), hash)
        }),
{
    assert(commits.take(i + 1).drop_last() =~= commits.take(i));
    assert(commits.take(i + 1).last() == commits[i]);
}

/// Collection of commits for a round, at most one per validator.
pub struct CommitSet {
    /// The accepted commits, in arrival order.
    pub commits: Vec<Commit>,
}

impl View for CommitSet {
    type V = Seq<Commit>;

    open spec fn view(&self) -> Seq<Commit> {
        self.commits@
    }
}

impl Clone for CommitSet {
    fn clone(&self) -> (r: Self)
        ensures
            r@ == self@,
    {
        CommitSet { commits: self.commits.clone() }
    }
}

impl CommitSet {
    /// Well-formedness: at most one commit per validator.
    pub open spec fn wf(&self) -> bool {
        forall|i: int, j: int|
            0 <= i < j < self.commits@.len() ==> self.commits@[i].validator
                != self.commits@[j].validator
    }

    /// Create an empty commit set.
    pub fn new() -> (r: Self)
        ensures
            r@ == Seq::<Commit>::empty(),
            r.wf(),
    {
        CommitSet { commits: Vec::new() }
    }

    /// Add a commit; returns true exactly when the validator had not
    /// committed yet, in which case the commit is appended.
    pub fn add(&mut self, commit: Commit) -> (r: bool)
        requires
            old(self).wf(),
        ensures
            (final(self)@, r) == spec_commit_add(old(self)@, commit),
            final(self).wf(),
            !r ==> *final(self) == *old(self),
    {
        if self.has_commit(&commit.validator) {
            return false;
        }
        self.commits.push(commit);
        true
    }

    /// Check if this set holds a commit from the given validator.
    pub fn has_commit(&self, validator: &ValidatorId) -> (r: bool)
        ensures
            r <==> has_committer(self@, *validator),
    {
        let n = self.commits.len();
        let mut i: usize = 0;
        while i < n
            invariant
                0 <= i <= n,
                n == self.commits@.len(),
                forall|k: int| 0 <= k < i ==> self.commits@[k].validator != *validator,
            decreases n - i,
        {
            if bytes32_eq(&self.commits[i].validator.0, &validator.0) {
                proof {
                    assert(self.commits@[i as int].validator.0 == validator.0);
                    assert(self.commits@[i as int].validator == *validator);
                }
                return true;
            }
            i += 1;
        }
        false
    }

    /// Whether the given validator committed to the given hash.
    fn has_commit_for(&self, validator: &ValidatorId, hash: &BlockHash) -> (r: bool)
        ensures
            r <==> committed_for(self@, *validator, *hash),
    {
        let n = self.commits.len();
        let mut i: usize = 0;
        while i < n
            invariant
                0 <= i <= n,
                n == self.commits@.len(),
                forall|k: int|
                    0 <= k < i ==> !((#[trigger] self.commits@[k]).validator == *validator
                        && self.commits@[k].block_hash == *hash),
            decreases n - i,
        {
            let commit = &self.commits[i];
            if bytes32_eq(&commit.validator.0, &validator.0) && bytes32_eq(
                &commit.block_hash,
                hash,
            ) {
                proof {
                    assert(self.commits@[i as int].validator.0@ == validator.0@);
                    assert(self.commits@[i as int].validator.0 == validator.0);
                    assert(self.commits@[i as int].validator == *validator);
                    assert(self.commits@[i as int].block_hash@ == hash@);
                    crate::bytes::lemma_bytes32_ext(self.commits@[i as int].block_hash, *hash);
                }
                return true;
            }
            i += 1;
        }
        false
    }

    /// Get the total weight of validators committing to a specific block.
    pub fn weight_for_block(&self, block_hash: &BlockHash, validator_set: &ValidatorSet) -> (r: u64)
        requires
            validator_set.wf(),
        ensures
            r as int == commit_weight_for(self@, validator_set.spec_validators(), *block_hash),
            r <= validator_set.spec_total_weight(),
    {
        let vs = validator_set.validators();
        let n = vs.len();
        let mut total: u64 = 0;
        let mut i: usize = 0;
        proof {
            assert(vs@.take(0) =~= Seq::<Validator>::empty());
            crate::validators::lemma_weight_sum_nonneg(vs@.take(0));
        }
        while i < n
            invariant
                0 <= i <= n,
                n == vs@.len(),
                vs@ == validator_set.spec_validators(),
                validator_set.wf(),
                total as int == commit_weight_for(self@, vs@.take(i as int), *block_hash),
                total as int <= weight_sum(vs@.take(i as int)),
            decreases n - i,
        {
            proof {
                lemma_commit_weight_take_step(self@, vs@, *block_hash, i as int);
                crate::validators::lemma_weight_sum_take_step(vs@, i as int);
                crate::validators::lemma_weight_sum_take_bound(vs@, i + 1);
            }
            if self.has_commit_for(&vs[i].id, block_hash) {
                total = total + vs[i].weight;
            }
            i += 1;
        }
        proof {
            assert(vs@.take(n as int) =~= vs@);
        }
        total
    }

    /// Get the commits for a block hash, in arrival order.
    pub fn commits_for_block(&self, block_hash: &BlockHash) -> (r: Vec<Commit>)
        ensures
            r@ == commits_for(self@, *block_hash),
    {
        let n = self.commits.len();
        let mut out: Vec<Commit> = Vec::new();
        let mut i: usize = 0;
        proof {
            assert(self@.take(0) =~= Seq::<Commit>::empty());
            assert(out@ =~= commits_for(self@.take(0), *block_hash));
        }
        while i < n
            invariant
                0 <= i <= n,
                n == self@.len(),
                out@ == commits_for(self@.take(i as int), *block_hash),
            decreases n - i,
        {
            let c = &self.commits[i];
            proof {
                lemma_commits_for_take_step(self@, *block_hash, i as int);
            }
            if bytes32_eq(&c.block_hash, block_hash) {
                proof {
                    assert(self@[i as int].block_hash@ == block_hash@);
                    crate::bytes::lemma_bytes32_ext(self@[i as int].block_hash, *block_hash);
                }
                out.push(*c);
            } else {
                proof {
                    assert(self@[i as int].block_hash@ != block_hash@);
                    assert(self@[i as int].block_hash != *block_hash);
                }
            }
            i += 1;
        }
        proof {
            assert(self@.take(n as int) =~= self@);
        }
        out
    }

    /// Total commits collected.
    pub fn count(&self) -> (r: usize)
        ensures
            r == self@.len(),
    {
        self.commits.len()
    }
}

proof fn lemma_commit_weight_take_step(
    commits: Seq<Commit>,
    vs: Seq<Validator>,
    hash: BlockHash,
    i: int,
)
    requires
        0 <= i < vs.len(),
    ensures
        commit_weight_for(commits, vs.take(i + 1), hash) == commit_weight_for(
            commits,
            vs.take(i),
            hash,
        ) + (if committed_for(commits, vs[i].id, hash) {
            vs[i].weight as int
        } else {
            0
        }),
{
    assert(vs.take(i + 1).drop_last() =~= vs.take(i));
    assert(vs.take(i + 1).last() == vs[i]);
}

/// Law: adding a commit reports true the first time, and false for every
/// later commit carried by the same validator, whatever block it names.
pub proof fn lemma_commit_add_idempotent(commits: Seq<Commit>, v: Commit, w: Commit)
    requires
        w.validator == v.validator,
    ensures
        spec_commit_add(commits, v).1 == !has_committer(commits, v.validator),
        spec_commit_add(spec_commit_add(commits, v).0, w).1 == false,
{
    let after = spec_commit_add(commits, v).0;
    if has_committer(commits, v.validator) {
        let i = choose|i: int| 0 <= i < commits.len() && commits[i].validator == v.validator;
        assert(after[i].validator == w.validator);
    } else {
        assert(after[commits.len() as int].validator == w.validator);
    }
}

/// Whether a sequence of commits holds at most one commit per validator.
pub open spec fn commits_unique(commits: Seq<Commit>) -> bool {
    forall|i: int, j: int|
        0 <= i < j < commits.len() ==> commits[i].validator != commits[j].validator
}

proof fn lemma_commit_weights_disjoint(
    commits: Seq<Commit>,
    vs: Seq<Validator>,
    a: BlockHash,
    b: BlockHash,
)
    requires
        a != b,
        commits_unique(commits),
    ensures
        commit_weight_for(commits, vs, a) + commit_weight_for(commits, vs, b) <= weight_sum(vs),
    decreases vs.len(),
{
    if vs.len() > 0 {
        lemma_commit_weights_disjoint(commits, vs.drop_last(), a, b);
        let id = vs.last().id;
        if committed_for(commits, id, a) && committed_for(commits, id, b) {
            let i = choose|i: int|
                0 <= i < commits.len() && commits[i].validator == id && commits[i].block_hash == a;
            let j = choose|j: int|
                0 <= j < commits.len() && commits[j].validator == id && commits[j].block_hash == b;
            assert(i != j);
            assert(false);
        }
    }
}

/// Law: quorum safety of a single commit set. In one well-formed commit
/// set over a well-formed validator set, two distinct block hashes can
/// never both reach the quorum threshold: a second finality certificate at
/// the same height from these commits is impossible.
pub proof fn lemma_no_two_quorums(
    commits: Seq<Commit>,
    validator_set: ValidatorSet,
    a: BlockHash,
    b: BlockHash,
)
    requires
        validator_set.wf(),
        validator_set.spec_total_weight() >= 1,
        commits_unique(commits),
        a != b,
        commit_weight_for(commits, validator_set.spec_validators(), a) >= crate::validators::spec_quorum_threshold(
            validator_set.spec_total_weight() as int,
        ),
    ensures
        commit_weight_for(commits, validator_set.spec_validators(), b) < crate::validators::spec_quorum_threshold(
            validator_set.spec_total_weight() as int,
        ),
{
    let w = validator_set.spec_total_weight() as int;
    crate::validators::lemma_quorum_bounds(w);
    lemma_commit_weights_disjoint(commits, validator_set.spec_validators(), a, b);
}

/// Current state of a consensus round.
pub struct RoundState {
    /// Block height being decided.
    pub height: u64,
    /// Current round number.
    pub round: u64,
    /// Current phase.
    pub phase: Phase,
    /// Proposal for this round (if received).
    pub proposal: Option<Proposal>,
    /// Collected prevotes.
    pub prevotes: PrevoteSet,
    /// Collected commits.
    pub commits: CommitSet,
    /// Whether we have prevoted.
    pub prevoted: bool,
    /// Whether we have committed.
    pub committed: bool,
    /// Block hash we locked on (if any).
    pub locked_block: Option<BlockHash>,
    /// Round we locked on.
    pub locked_round: Option<u64>,
}

/// The mathematical value of a round state.
pub ghost struct RoundStateView {
    pub height: u64,
    pub round: u64,
    pub phase: Phase,
    pub proposal: Option<ProposalView>,
    pub prevotes: Seq<Prevote>,
    pub commits: Seq<Commit>,
    pub prevoted: bool,
    pub committed: bool,
    pub locked_block: Option<BlockHash>,
    pub locked_round: Option<u64>,
}

/// The view of an optional proposal.
pub open spec fn opt_proposal_view(o: Option<Proposal>) -> Option<ProposalView> {
    match o {
        Some(p) => Some(p@),
        None => None,
    }
}

impl View for RoundState {
    type V = RoundStateView;

    open spec fn view(&self) -> RoundStateView {
        RoundStateView {
            height: self.height,
            round: self.round,
            phase: self.phase,
            proposal: opt_proposal_view(self.proposal),
            prevotes: self.prevotes@,
            commits: self.commits@,
            prevoted: self.prevoted,
            committed: self.committed,
            locked_block: self.locked_block,
            locked_round: self.locked_round,
        }
    }
}

impl RoundState {
    /// Well-formedness: the vote sets hold one vote per validator.
    pub open spec fn wf(&self) -> bool {
        self.prevotes.wf() && self.commits.wf()
    }

    /// Create the initial state for a height and round: phase `Propose`,
    /// no proposal, empty vote sets, no lock.
    pub fn new(height: u64, round: u64) -> (r: Self)
        ensures
            r@ == (RoundStateView {
                height,
                round,
                phase: Phase::Propose,
                proposal: None,
                prevotes: Seq::<Prevote>::empty(),
                commits: Seq::<Commit>::empty(),
                prevoted: false,
                committed: false,
                locked_block: None,
                locked_round: None,
            }),
            r.wf(),
    {
        RoundState {
            height,
            round,
            phase: Phase::Propose,
            proposal: None,
            prevotes: PrevoteSet::new(),
            commits: CommitSet::new(),
            prevoted: false,
            committed: false,
            locked_block: None,
            locked_round: None,
        }
    }

    /// Advance to the next round of the same height: the round number
    /// increments, phase and vote state reset, and the lock carries
    /// forward.
    pub fn next_round(&self) -> (r: Self)
        requires
            self.round < u64::MAX,
        ensures
            r@ == (RoundStateView {
                height: self.height,
                round: (self.round + 1) as u64,
                phase: Phase::Propose,
                proposal: None,
                prevotes: Seq::<Prevote>::empty(),
                commits: Seq::<Commit>::empty(),
                prevoted: false,
                committed: false,
                locked_block: self.locked_block,
                locked_round: self.locked_round,
            }),
            r.wf(),
    {
        RoundState {
            height: self.height,
            round: self.round + 1,
            phase: Phase::Propose,
            proposal: None,
            prevotes: PrevoteSet::new(),
            commits: CommitSet::new(),
            prevoted: false,
            committed: false,
            locked_block: self.locked_block,
            locked_round: self.locked_round,
        }
    }

    /// Advance to the next height: everything resets, round 0, no lock.
    pub fn next_height(&self) -> (r: Self)
        requires
            self.height < u64::MAX,
        ensures
            r@ == (RoundStateView {
                height: (self.height + 1) as u64,
                round: 0,
                phase: Phase::Propose,
                proposal: None,
                prevotes: Seq::<Prevote>::empty(),
                commits: Seq::<Commit>::empty(),
                prevoted: false,
                committed: false,
                locked_block: None,
                locked_round: None,
            }),
            r.wf(),
    {
        RoundState::new(self.height + 1, 0)
    }
}

/// Consensus message wrapper for network transport.
pub enum ConsensusMessage {
    /// Block proposal.
    Proposal(Proposal),
    /// Prevote.
    Prevote(Prevote),
    /// Commit.
    Commit(Commit),
}

impl ConsensusMessage {
    /// The height this message is for.
    pub fn height(&self) -> (r: u64)
        ensures
            r == (match self {
                ConsensusMessage::Proposal(p) => p.height,
                ConsensusMessage::Prevote(v) => v.height,
                ConsensusMessage::Commit(c) => c.height,
            }),
    {
        match self {
            ConsensusMessage::Proposal(p) => p.height,
            ConsensusMessage::Prevote(v) => v.height,
            ConsensusMessage::Commit(c) => c.height,
        }
    }

    /// The round this message is for.
    pub fn round(&self) -> (r: u64)
        ensures
            r == (match self {
                ConsensusMessage::Proposal(p) => p.round,
                ConsensusMessage::Prevote(v) => v.round,
                ConsensusMessage::Commit(c) => c.round,
            }),
    {
        match self {
            ConsensusMessage::Proposal(p) => p.round,
            ConsensusMessage::Prevote(v) => v.round,
            ConsensusMessage::Commit(c) => c.round,
        }
    }
}

} // verus!
