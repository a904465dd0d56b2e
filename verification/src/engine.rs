//! The consensus engine: a single-owner state machine that consumes
//! consensus messages and emits outbound events.
//!
//! The engine owns the current round state and the map of finalized
//! certificates. Every handler is one logical transition: it validates the
//! message, updates the round state, and appends the events the
//! orchestrator must act on (broadcasts, finalization, timeouts). The
//! orchestrator drains the events with `take_events`.

use vstd::prelude::*;
use crate::bytes::{bytes32_eq, lemma_bytes32_ext};
use crate::config::ConsensusConfig;
use crate::crypto::{ed25519_accepts, ed25519_pubkey_of, ed25519_sig_of, Keypair};
use crate::messages::{
    commit_weight_for,
    commits_for,
    has_committer,
    has_prevoter,
    prevote_weight_for,
    spec_commit_payload,
    spec_prevote_payload,
    spec_proposal_payload,
    Commit,
    FinalityCertificate,
    FinalityCertificateView,
    Phase,
    Prevote,
    Proposal,
    ProposalView,
    RoundState,
};
use crate::validators::{
    has_validator,
    spec_quorum_threshold,
    BlockHash,
    StateRoot,
    Validator,
    ValidatorId,
    ValidatorSet,
};

verus! {

/// Errors of consensus operations.
#[derive(Clone, Debug)]
pub enum ConsensusError {
    /// Message is for the wrong round.
    WrongRound { expected: u64, got: u64 },
    /// Message is for the wrong height.
    WrongHeight { expected: u64, got: u64 },
    /// Proposal is from the wrong leader.
    WrongLeader { expected: ValidatorId, got: ValidatorId },
    /// Duplicate vote from the same validator.
    DuplicateVote { validator: ValidatorId, round: u64 },
    /// Vote references an unknown block.
    UnknownBlock { hash: BlockHash },
    /// Validator not in the validator set.
    UnknownValidator { validator: ValidatorId },
    /// Invalid signature on a consensus message.
    InvalidSignature { message_type: MessageClass },
    /// Quorum not reached within the timeout.
    QuorumTimeout { round: u64, phase: Phase },
    /// Block validation failed.
    InvalidBlock { hash: BlockHash },
    /// Attempted to finalize an already finalized height.
    AlreadyFinalized { height: u64 },
    /// Fork detected after finality: the critical invariant violation.
    ForkAfterFinality { height: u64 },
    /// Internal state corruption.
    StateCorruption { height: u64, round: u64 },
    /// Timeout expired.
    Timeout { round: u64 },
    /// Serialization failure.
    Serialization { length: u64 },
}

/// The message class a signature failure belongs to.
#[derive(Clone, Copy, Debug, PartialEq, Eq, Structural)]
pub enum MessageClass {
    /// A proposal.
    Proposal,
    /// A prevote.
    Prevote,
    /// A commit.
    Commit,
}

/// Events emitted by the consensus engine for the orchestrator.
pub enum ConsensusEvent {
    /// Broadcast a proposal.
    BroadcastProposal(Proposal),
    /// Broadcast a prevote.
    BroadcastPrevote(Prevote),
    /// Broadcast a commit.
    BroadcastCommit(Commit),
    /// A block has been finalized.
    BlockFinalized { height: u64, block_hash: BlockHash, certificate: FinalityCertificate },
    /// The round timed out; the engine moved to the next round.
    RoundTimeout { height: u64, round: u64 },
    /// Request to execute a block through the runtime.
    ExecuteBlock { height: u64, prev_hash: BlockHash, transactions: Vec<u8> },
}

/// The mathematical value of a consensus event.
pub ghost enum ConsensusEventView {
    BroadcastProposal(ProposalView),
    BroadcastPrevote(Prevote),
    BroadcastCommit(Commit),
    BlockFinalized { height: u64, block_hash: BlockHash, certificate: FinalityCertificateView },
    RoundTimeout { height: u64, round: u64 },
    ExecuteBlock { height: u64, prev_hash: BlockHash, transactions: Seq<u8> },
}

impl View for ConsensusEvent {
    type V = ConsensusEventView;

    open spec fn view(&self) -> ConsensusEventView {
        match self {
            ConsensusEvent::BroadcastProposal(p) => ConsensusEventView::BroadcastProposal(p@),
            ConsensusEvent::BroadcastPrevote(v) => ConsensusEventView::BroadcastPrevote(*v),
            ConsensusEvent::BroadcastCommit(c) => ConsensusEventView::BroadcastCommit(*c),
            ConsensusEvent::BlockFinalized { height, block_hash, certificate } => {
                ConsensusEventView::BlockFinalized {
                    height: *height,
                    block_hash: *block_hash,
                    certificate: certificate@,
                }
            },
            ConsensusEvent::RoundTimeout { height, round } => {
                ConsensusEventView::RoundTimeout { height: *height, round: *round }
            },
            ConsensusEvent::ExecuteBlock { height, prev_hash, transactions } => {
                ConsensusEventView::ExecuteBlock {
                    height: *height,
                    prev_hash: *prev_hash,
                    transactions: transactions@,
                }
            },
        }
    }
}

/// The views of a sequence of consensus events.
pub open spec fn events_view(events: Seq<ConsensusEvent>) -> Seq<ConsensusEventView> {
    Seq::new(events.len(), |i: int| events[i]@)
}

/// Result of processing a consensus message.
pub enum ProcessResult {
    /// Message processed, continue.
    Continue,
    /// Block finalized at this height.
    Finalized(FinalityCertificate),
    /// Need more votes.
    NeedMoreVotes,
    /// Message was stale or a duplicate.
    Ignored,
}

/// The certificates of the finalized heights, looked up by height.
pub open spec fn spec_finalized_view(entries: Seq<(u64, FinalityCertificate)>, h: u64) -> Option<
    FinalityCertificateView,
>
    decreases entries.len(),
{
    if entries.len() == 0 {
        None
    } else if entries.last().0 == h {
        Some(entries.last().1@)
    } else {
        spec_finalized_view(entries.drop_last(), h)
    }
}

/// The core consensus engine.
pub struct ConsensusEngine {
    /// Configuration.
    pub config: ConsensusConfig,
    /// The validator set for the current height.
    pub validator_set: ValidatorSet,
    /// Our validator keypair.
    pub keypair: Keypair,
    /// Our validator ID.
    pub our_id: ValidatorId,
    /// Current round state.
    pub state: RoundState,
    /// Finality certificates by height.
    pub finalized: Vec<(u64, FinalityCertificate)>,
    /// Outbound events not yet drained by the orchestrator.
    pub events: Vec<ConsensusEvent>,
}

impl ConsensusEngine {
    /// Well-formedness: the validator set is well-formed and non-empty,
    /// the round state's vote sets hold one vote per validator, and our id
    /// is the public key of our keypair.
    pub open spec fn wf(&self) -> bool {
        &&& self.validator_set.wf()
        &&& self.validator_set.spec_validators().len() >= 1
        &&& self.state.wf()
        &&& self.our_id.0@ == ed25519_pubkey_of(self.keypair.secret_view())
    }

    /// The leader for a round.
    pub open spec fn spec_leader(&self, round: u64) -> Validator {
        self.validator_set.spec_validators()[self.validator_set.spec_leader_index(round as int)]
    }

    /// The public key of the validator with the given id.
    pub open spec fn spec_validator_pubkey(&self, id: ValidatorId) -> [u8; 32] {
        let vs = self.validator_set.spec_validators();
        vs[choose|i: int| 0 <= i < vs.len() && vs[i].id == id].pubkey
    }

    /// Whether a proposal's signature verifies under its proposer's key.
    pub open spec fn proposal_sig_ok(&self, p: ProposalView) -> bool {
        ed25519_accepts(
            self.spec_validator_pubkey(p.proposer)@,
            spec_proposal_payload(p),
            p.signature.0@,
        )
    }

    /// Whether a prevote's signature verifies under its voter's key.
    pub open spec fn prevote_sig_ok(&self, v: Prevote) -> bool {
        ed25519_accepts(
            self.spec_validator_pubkey(v.validator)@,
            spec_prevote_payload(v.height, v.round, v.block_hash),
            v.signature.0@,
        )
    }

    /// Whether a commit's signature verifies under its committer's key.
    pub open spec fn commit_sig_ok(&self, c: Commit) -> bool {
        ed25519_accepts(
            self.spec_validator_pubkey(c.validator)@,
            spec_commit_payload(c.height, c.round, c.block_hash),
            c.signature.0@,
        )
    }

    /// The quorum threshold of the current validator set.
    pub open spec fn spec_quorum(&self) -> int {
        spec_quorum_threshold(self.validator_set.spec_total_weight() as int)
    }

    /// Create a new consensus engine, starting at height 1, round 0.
    pub fn new(config: ConsensusConfig, validator_set: ValidatorSet, keypair: Keypair) -> (r: Self)
        requires
            validator_set.wf(),
            validator_set.spec_validators().len() >= 1,
        ensures
            r.wf(),
            r.config == config,
            r.validator_set == validator_set,
            r.keypair == keypair,
            r.state@.height == 1 && r.state@.round == 0 && r.state@.phase == Phase::Propose,
            r.state@.proposal is None && !r.state@.prevoted && !r.state@.committed,
            r.state@.prevotes == Seq::<Prevote>::empty(),
            r.state@.commits == Seq::<Commit>::empty(),
            r.state@.locked_block is None && r.state@.locked_round is None,
            r.finalized@ == Seq::<(u64, FinalityCertificate)>::empty(),
            r.events@ == Seq::<ConsensusEvent>::empty(),
            r.our_id.0@ == ed25519_pubkey_of(keypair.secret_view()),
    {
        let our_id = ValidatorId(keypair.public_key());
        ConsensusEngine {
            config,
            validator_set,
            keypair,
            our_id,
            state: RoundState::new(1, 0),
            finalized: Vec::new(),
            events: Vec::new(),
        }
    }

    /// Our validator ID.
    pub fn our_id(&self) -> (r: &ValidatorId)
        ensures
            *r == self.our_id,
    {
        &self.our_id
    }

    /// Whether we are the leader for the current round.
    pub fn is_leader(&self) -> (r: bool)
        requires
            self.wf(),
        ensures
            r <==> self.spec_leader(self.state.round).id == self.our_id,
    {
        let leader = self.validator_set.leader_for_round(self.state.round);
        let r = bytes32_eq(&leader.id.0, &self.our_id.0);
        proof {
            if leader.id.0@ == self.our_id.0@ {
                lemma_bytes32_ext(leader.id.0, self.our_id.0);
            }
        }
        r
    }

    /// Current height.
    pub fn current_height(&self) -> (r: u64)
        ensures
            r == self.state.height,
    {
        self.state.height
    }

    /// Current round.
    pub fn current_round(&self) -> (r: u64)
        ensures
            r == self.state.round,
    {
        self.state.round
    }

    /// Drain the outbound events for the orchestrator.
    pub fn take_events(&mut self) -> (r: Vec<ConsensusEvent>)
        ensures
            r == old(self).events,
            final(self).events@ == Seq::<ConsensusEvent>::empty(),
            final(self).state == old(self).state,
            final(self).finalized == old(self).finalized,
            final(self).validator_set == old(self).validator_set,
    {
        let mut out: Vec<ConsensusEvent> = Vec::new();
        core::mem::swap(&mut out, &mut self.events);
        out
    }

    /// Start a new height: a fresh round state at round 0. If we lead
    /// round 0, request block execution from the runtime.
    pub fn start_height(&mut self, height: u64) -> (r: Result<(), ConsensusError>)
        requires
            old(self).wf(),
        ensures
            final(self).wf(),
            final(self).validator_set == old(self).validator_set,
            final(self).our_id == old(self).our_id,
            final(self).keypair == old(self).keypair,
            final(self).config == old(self).config,
            r is Ok,
            final(self).state@.height == height && final(self).state@.round == 0,
            final(self).state@.phase == Phase::Propose,
            final(self).state@.proposal is None,
            final(self).state@.prevotes == Seq::<Prevote>::empty(),
            final(self).state@.commits == Seq::<Commit>::empty(),
            !final(self).state@.prevoted && !final(self).state@.committed,
            final(self).state@.locked_block is None && final(self).state@.locked_round is None,
            final(self).finalized == old(self).finalized,
            old(self).spec_leader(0).id == old(self).our_id ==> {
                let ev = events_view(final(self).events@);
                let old_ev = events_view(old(self).events@);
                &&& ev.len() == old_ev.len() + 1
                &&& ev.drop_last() == old_ev
                &&& ev.last() matches ConsensusEventView::ExecuteBlock {
                    height: h,
                    prev_hash,
                    transactions,
                } && h == height && prev_hash@ == Seq::new(32, |i: int| 0u8) && transactions
                    == Seq::<u8>::empty()
            },
            old(self).spec_leader(0).id != old(self).our_id ==> final(self).events == old(self).events,
    {
        self.state = RoundState::new(height, 0);
        let leader = self.validator_set.leader_for_round(0);
        let lead = bytes32_eq(&leader.id.0, &self.our_id.0);
        proof {
            if leader.id.0@ == self.our_id.0@ {
                lemma_bytes32_ext(leader.id.0, self.our_id.0);
            }
        }
        if lead {
            let zeros = [0u8; 32];
            proof {
                assert(zeros@ =~= Seq::new(32, |i: int| 0u8));
            }
            self.events.push(
                ConsensusEvent::ExecuteBlock {
                    height,
                    prev_hash: zeros,
                    transactions: Vec::new(),
                },
            );
            proof {
                let ev = events_view(self.events@);
                let old_ev = events_view(old(self).events@);
                assert(ev.drop_last() =~= old_ev);
            }
        }
        Ok(())
    }

    /// Create, sign and emit a proposal for the current round. Rejected
    /// when we are not the current leader.
    pub fn propose(
        &mut self,
        prev_hash: BlockHash,
        block_hash: BlockHash,
        state_root: StateRoot,
        transactions: Vec<u8>,
    ) -> (r: Result<(), ConsensusError>)
        requires
            old(self).wf(),
        ensures
            final(self).wf(),
            final(self).validator_set == old(self).validator_set,
            final(self).our_id == old(self).our_id,
            final(self).keypair == old(self).keypair,
            final(self).config == old(self).config,
            r is Ok <==> old(self).spec_leader(old(self).state.round).id == old(self).our_id,
            r is Err ==> *final(self) == *old(self) && r == Err::<(), ConsensusError>(
                ConsensusError::WrongLeader {
                    expected: old(self).spec_leader(old(self).state.round).id,
                    got: old(self).our_id,
                },
            ),
            r is Ok ==> {
                let ev = events_view(final(self).events@);
                let old_ev = events_view(old(self).events@);
                &&& final(self).state == old(self).state
                &&& final(self).finalized == old(self).finalized
                &&& ev.len() == old_ev.len() + 1
                &&& ev.drop_last() == old_ev
                &&& ev.last() matches ConsensusEventView::BroadcastProposal(p) && p == (
                ProposalView {
                    height: old(self).state.height,
                    round: old(self).state.round,
                    prev_hash,
                    block_hash,
                    state_root,
                    transactions: transactions@,
                    proposer: old(self).our_id,
                    signature: p.signature,
                }) && p.signature.0@ == ed25519_sig_of(
                    old(self).keypair.secret_view(),
                    spec_proposal_payload(p),
                )
            },
    {
        let leader = self.validator_set.leader_for_round(self.state.round);
        let lead = bytes32_eq(&leader.id.0, &self.our_id.0);
        proof {
            if leader.id.0@ == self.our_id.0@ {
                lemma_bytes32_ext(leader.id.0, self.our_id.0);
            }
        }
        if !lead {
            let expected = leader.id;
            return Err(ConsensusError::WrongLeader { expected, got: self.our_id });
        }
        let mut proposal = Proposal {
            height: self.state.height,
            round: self.state.round,
            prev_hash,
            block_hash,
            state_root,
            transactions,
            proposer: self.our_id,
            signature: crate::validators::Signature64([0u8; 64]),
        };
        let payload = proposal.signing_payload();
        let signature = self.keypair.sign(payload.as_slice());
        proposal.signature = crate::validators::Signature64(signature);
        proof {
            assert(spec_proposal_payload(proposal@) == payload@);
        }
        self.events.push(ConsensusEvent::BroadcastProposal(proposal));
        proof {
            let ev = events_view(self.events@);
            let old_ev = events_view(old(self).events@);
            assert(ev.drop_last() =~= old_ev);
        }
        Ok(())
    }

    /// Link the validator returned by a set lookup to the pubkey spec.
    proof fn lemma_get_pubkey(&self, v: Validator)
        requires
            self.wf(),
            self.validator_set.spec_validators().contains(v),
        ensures
            self.spec_validator_pubkey(v.id) == v.pubkey,
    {
        let vs = self.validator_set.spec_validators();
        let j = choose|j: int| 0 <= j < vs.len() && vs[j] == v;
        assert(vs[j].id == v.id);
        let i = choose|i: int| 0 <= i < vs.len() && vs[i].id == v.id;
        assert(vs[i].id == v.id);
        if i != j {
            assert(vs[i].id != vs[j].id);
            assert(false);
        }
    }

    /// Verify a proposal signature against the proposer's public key.
    fn verify_proposal_signature(&self, proposal: &Proposal) -> (r: Result<(), ConsensusError>)
        requires
            self.wf(),
        ensures
            r is Ok <==> has_validator(self.validator_set.spec_validators(), proposal.proposer)
                && self.proposal_sig_ok(proposal@),
            !has_validator(self.validator_set.spec_validators(), proposal.proposer) ==> r == Err::<
                (),
                ConsensusError,
            >(ConsensusError::UnknownValidator { validator: proposal.proposer }),
            has_validator(self.validator_set.spec_validators(), proposal.proposer)
                && !self.proposal_sig_ok(proposal@) ==> r == Err::<(), ConsensusError>(
                ConsensusError::InvalidSignature { message_type: MessageClass::Proposal },
            ),
    {
        let validator = match self.validator_set.get(&proposal.proposer) {
            Some(v) => v,
            None => {
                return Err(ConsensusError::UnknownValidator { validator: proposal.proposer });
            },
        };
        proof {
            self.lemma_get_pubkey(*validator);
        }
        let payload = proposal.signing_payload();
        match crate::crypto::verify_signature(
            &validator.pubkey,
            payload.as_slice(),
            &proposal.signature.0,
        ) {
            Ok(()) => Ok(()),
            Err(_) => Err(ConsensusError::InvalidSignature {
                message_type: MessageClass::Proposal,
            }),
        }
    }

    /// Verify a prevote signature against the voter's public key.
    fn verify_prevote_signature(&self, prevote: &Prevote) -> (r: Result<(), ConsensusError>)
        requires
            self.wf(),
        ensures
            r is Ok <==> has_validator(self.validator_set.spec_validators(), prevote.validator)
                && self.prevote_sig_ok(*prevote),
            !has_validator(self.validator_set.spec_validators(), prevote.validator) ==> r == Err::<
                (),
                ConsensusError,
            >(ConsensusError::UnknownValidator { validator: prevote.validator }),
            has_validator(self.validator_set.spec_validators(), prevote.validator)
                && !self.prevote_sig_ok(*prevote) ==> r == Err::<(), ConsensusError>(
                ConsensusError::InvalidSignature { message_type: MessageClass::Prevote },
            ),
    {
        let validator = match self.validator_set.get(&prevote.validator) {
            Some(v) => v,
            None => {
                return Err(ConsensusError::UnknownValidator { validator: prevote.validator });
            },
        };
        proof {
            self.lemma_get_pubkey(*validator);
        }
        let payload = prevote.signing_payload();
        match crate::crypto::verify_signature(
            &validator.pubkey,
            payload.as_slice(),
            &prevote.signature.0,
        ) {
            Ok(()) => Ok(()),
            Err(_) => Err(ConsensusError::InvalidSignature {
                message_type: MessageClass::Prevote,
            }),
        }
    }

    /// Verify a commit signature against the committer's public key.
    fn verify_commit_signature(&self, commit: &Commit) -> (r: Result<(), ConsensusError>)
        requires
            self.wf(),
        ensures
            r is Ok <==> has_validator(self.validator_set.spec_validators(), commit.validator)
                && self.commit_sig_ok(*commit),
            !has_validator(self.validator_set.spec_validators(), commit.validator) ==> r == Err::<
                (),
                ConsensusError,
            >(ConsensusError::UnknownValidator { validator: commit.validator }),
            has_validator(self.validator_set.spec_validators(), commit.validator)
                && !self.commit_sig_ok(*commit) ==> r == Err::<(), ConsensusError>(
                ConsensusError::InvalidSignature { message_type: MessageClass::Commit },
            ),
    {
        let validator = match self.validator_set.get(&commit.validator) {
            Some(v) => v,
            None => {
                return Err(ConsensusError::UnknownValidator { validator: commit.validator });
            },
        };
        proof {
            self.lemma_get_pubkey(*validator);
        }
        let payload = commit.signing_payload();
        match crate::crypto::verify_signature(
            &validator.pubkey,
            payload.as_slice(),
            &commit.signature.0,
        ) {
            Ok(()) => Ok(()),
            Err(_) => Err(ConsensusError::InvalidSignature {
                message_type: MessageClass::Commit,
            }),
        }
    }

    /// Cast our own prevote for the current round, unless we already have.
    fn cast_prevote(&mut self, block_hash: Option<BlockHash>)
        requires
            old(self).wf(),
        ensures
            final(self).wf(),
            old(self).state.prevoted ==> *final(self) == *old(self),
            !old(self).state.prevoted ==> {
                let ev = events_view(final(self).events@);
                let old_ev = events_view(old(self).events@);
                &&& final(self).state@ == (crate::messages::RoundStateView {
                    prevoted: true,
                    ..old(self).state@
                })
                &&& final(self).finalized == old(self).finalized
                &&& final(self).validator_set == old(self).validator_set
                &&& final(self).keypair == old(self).keypair
                &&& final(self).our_id == old(self).our_id
                &&& final(self).config == old(self).config
                &&& ev.len() == old_ev.len() + 1
                &&& ev.drop_last() == old_ev
                &&& ev.last() matches ConsensusEventView::BroadcastPrevote(v) && v == (Prevote {
                    height: old(self).state.height,
                    round: old(self).state.round,
                    block_hash,
                    validator: old(self).our_id,
                    signature: v.signature,
                }) && v.signature.0@ == ed25519_sig_of(
                    old(self).keypair.secret_view(),
                    spec_prevote_payload(old(self).state.height, old(self).state.round, block_hash),
                )
            },
    {
        if self.state.prevoted {
            return ;
        }
        let mut prevote = Prevote {
            height: self.state.height,
            round: self.state.round,
            block_hash,
            validator: self.our_id,
            signature: crate::validators::Signature64([0u8; 64]),
        };
        let payload = prevote.signing_payload();
        let signature = self.keypair.sign(payload.as_slice());
        prevote.signature = crate::validators::Signature64(signature);
        self.state.prevoted = true;
        self.events.push(ConsensusEvent::BroadcastPrevote(prevote));
        proof {
            let ev = events_view(self.events@);
            let old_ev = events_view(old(self).events@);
            assert(ev.drop_last() =~= old_ev);
        }
    }

    /// Cast our own commit for the current round, unless we already have.
    fn cast_commit(&mut self, block_hash: BlockHash)
        requires
            old(self).wf(),
        ensures
            final(self).wf(),
            old(self).state.committed ==> *final(self) == *old(self),
            !old(self).state.committed ==> {
                let ev = events_view(final(self).events@);
                let old_ev = events_view(old(self).events@);
                &&& final(self).state@ == (crate::messages::RoundStateView {
                    committed: true,
                    ..old(self).state@
                })
                &&& final(self).finalized == old(self).finalized
                &&& final(self).validator_set == old(self).validator_set
                &&& final(self).keypair == old(self).keypair
                &&& final(self).our_id == old(self).our_id
                &&& final(self).config == old(self).config
                &&& ev.len() == old_ev.len() + 1
                &&& ev.drop_last() == old_ev
                &&& ev.last() matches ConsensusEventView::BroadcastCommit(c) && c == (Commit {
                    height: old(self).state.height,
                    round: old(self).state.round,
                    block_hash,
                    validator: old(self).our_id,
                    signature: c.signature,
                }) && c.signature.0@ == ed25519_sig_of(
                    old(self).keypair.secret_view(),
                    spec_commit_payload(old(self).state.height, old(self).state.round, block_hash),
                )
            },
    {
        if self.state.committed {
            return ;
        }
        let mut commit = Commit {
            height: self.state.height,
            round: self.state.round,
            block_hash,
            validator: self.our_id,
            signature: crate::validators::Signature64([0u8; 64]),
        };
        let payload = commit.signing_payload();
        let signature = self.keypair.sign(payload.as_slice());
        commit.signature = crate::validators::Signature64(signature);
        self.state.committed = true;
        self.events.push(ConsensusEvent::BroadcastCommit(commit));
        proof {
            let ev = events_view(self.events@);
            let old_ev = events_view(old(self).events@);
            assert(ev.drop_last() =~= old_ev);
        }
    }

    /// Process an incoming proposal: reject stale rounds, wrong leaders
    /// and bad signatures; otherwise store the proposal, move to the
    /// prevote phase, and cast our own prevote for the proposed block if
    /// we have not prevoted in this round yet.
    pub fn on_proposal(&mut self, proposal: Proposal) -> (r: Result<
        ProcessResult,
        ConsensusError,
    >)
        requires
            old(self).wf(),
        ensures
            final(self).wf(),
            final(self).validator_set == old(self).validator_set,
            final(self).our_id == old(self).our_id,
            final(self).keypair == old(self).keypair,
            final(self).config == old(self).config,
            (proposal.height != old(self).state.height || proposal.round != old(self).state.round)
                ==> (r matches Ok(pr) && pr is Ignored && *final(self) == *old(self)),
            proposal.height == old(self).state.height && proposal.round == old(self).state.round
                && proposal.proposer != old(self).spec_leader(old(self).state.round).id ==> r
                == Err::<ProcessResult, ConsensusError>(
                ConsensusError::WrongLeader {
                    expected: old(self).spec_leader(old(self).state.round).id,
                    got: proposal.proposer,
                },
            ) && *final(self) == *old(self),
            proposal.height == old(self).state.height && proposal.round == old(self).state.round
                && proposal.proposer == old(self).spec_leader(old(self).state.round).id && !old(self).proposal_sig_ok(proposal@) ==> r == Err::<ProcessResult, ConsensusError>(
                ConsensusError::InvalidSignature { message_type: MessageClass::Proposal },
            ) && *final(self) == *old(self),
            proposal.height == old(self).state.height && proposal.round == old(self).state.round
                && proposal.proposer == old(self).spec_leader(old(self).state.round).id && old(self).proposal_sig_ok(proposal@) ==> {
                let ev = events_view(final(self).events@);
                let old_ev = events_view(old(self).events@);
                &&& r matches Ok(pr) && pr is Continue
                &&& final(self).state@.proposal == Some(proposal@)
                &&& final(self).state@.phase == Phase::Prevote
                &&& final(self).state@.prevoted
                &&& final(self).state@.height == old(self).state@.height
                &&& final(self).state@.round == old(self).state@.round
                &&& final(self).state@.prevotes == old(self).state@.prevotes
                &&& final(self).state@.commits == old(self).state@.commits
                &&& final(self).state@.committed == old(self).state@.committed
                &&& final(self).state@.locked_block == old(self).state@.locked_block
                &&& final(self).state@.locked_round == old(self).state@.locked_round
                &&& final(self).finalized == old(self).finalized
                &&& old(self).state.prevoted ==> final(self).events == old(self).events
                &&& !old(self).state.prevoted ==> ev.len() == old_ev.len() + 1 && ev.drop_last()
                    == old_ev && (ev.last() matches ConsensusEventView::BroadcastPrevote(v) && v
                    == (Prevote {
                    height: old(self).state.height,
                    round: old(self).state.round,
                    block_hash: Some(proposal.block_hash),
                    validator: old(self).our_id,
                    signature: v.signature,
                }) && v.signature.0@ == ed25519_sig_of(
                    old(self).keypair.secret_view(),
                    spec_prevote_payload(
                        old(self).state.height,
                        old(self).state.round,
                        Some(proposal.block_hash),
                    ),
                ))
            },
    {
        if proposal.height != self.state.height {
            return Ok(ProcessResult::Ignored);
        }
        if proposal.round != self.state.round {
            return Ok(ProcessResult::Ignored);
        }
        let leader = self.validator_set.leader_for_round(self.state.round);
        let from_leader = bytes32_eq(&proposal.proposer.0, &leader.id.0);
        proof {
            if proposal.proposer.0@ == leader.id.0@ {
                lemma_bytes32_ext(proposal.proposer.0, leader.id.0);
            }
        }
        if !from_leader {
            let expected = leader.id;
            return Err(ConsensusError::WrongLeader { expected, got: proposal.proposer });
        }
        proof {
            assert(has_validator(
                self.validator_set.spec_validators(),
                proposal.proposer,
            )) by {
                let vs = self.validator_set.spec_validators();
                let li = self.validator_set.spec_leader_index(self.state.round as int);
                assert(vs[li].id == proposal.proposer);
            }
        }
        match self.verify_proposal_signature(&proposal) {
            Ok(()) => {},
            Err(e) => {
                return Err(e);
            },
        }
        let block_hash = proposal.block_hash;
        self.state.proposal = Some(proposal);
        self.state.phase = Phase::Prevote;
        if !self.state.prevoted {
            self.cast_prevote(Some(block_hash));
        }
        Ok(ProcessResult::Continue)
    }

    /// Whether, with the given prevotes, the stored proposal's block has
    /// reached the prevote quorum while we have not committed yet.
    pub open spec fn spec_prevote_quorum(&self, votes: Seq<Prevote>) -> bool {
        &&& self.state@.proposal matches Some(p) && prevote_weight_for(
            votes,
            self.validator_set.spec_validators(),
            p.block_hash,
        ) >= self.spec_quorum()
        &&& !self.state.committed
    }

    /// Process an incoming prevote: reject stale rounds, unknown
    /// validators, bad signatures and duplicates; otherwise record the
    /// vote, and when the stored proposal's block reaches the prevote
    /// quorum, lock on it, move to the commit phase and cast our commit.
    pub fn on_prevote(&mut self, prevote: Prevote) -> (r: Result<ProcessResult, ConsensusError>)
        requires
            old(self).wf(),
        ensures
            final(self).wf(),
            final(self).validator_set == old(self).validator_set,
            final(self).our_id == old(self).our_id,
            final(self).keypair == old(self).keypair,
            final(self).config == old(self).config,
            (prevote.height != old(self).state.height || prevote.round != old(self).state.round)
                ==> (r matches Ok(pr) && pr is Ignored && *final(self) == *old(self)),
            prevote.height == old(self).state.height && prevote.round == old(self).state.round
                && !has_validator(old(self).validator_set.spec_validators(), prevote.validator)
                ==> r == Err::<ProcessResult, ConsensusError>(
                ConsensusError::UnknownValidator { validator: prevote.validator },
            ) && *final(self) == *old(self),
            prevote.height == old(self).state.height && prevote.round == old(self).state.round
                && has_validator(old(self).validator_set.spec_validators(), prevote.validator)
                && !old(self).prevote_sig_ok(prevote) ==> r == Err::<ProcessResult, ConsensusError>(
                ConsensusError::InvalidSignature { message_type: MessageClass::Prevote },
            ) && *final(self) == *old(self),
            prevote.height == old(self).state.height && prevote.round == old(self).state.round
                && has_validator(old(self).validator_set.spec_validators(), prevote.validator)
                && old(self).prevote_sig_ok(prevote) && has_prevoter(
                old(self).state@.prevotes,
                prevote.validator,
            ) ==> (r matches Ok(pr) && pr is Ignored && *final(self) == *old(self)),
            prevote.height == old(self).state.height && prevote.round == old(self).state.round
                && has_validator(old(self).validator_set.spec_validators(), prevote.validator)
                && old(self).prevote_sig_ok(prevote) && !has_prevoter(
                old(self).state@.prevotes,
                prevote.validator,
            ) ==> {
                let new_votes = old(self).state@.prevotes.push(prevote);
                let ev = events_view(final(self).events@);
                let old_ev = events_view(old(self).events@);
                &&& r matches Ok(pr) && pr is Continue
                &&& final(self).state@.prevotes == new_votes
                &&& final(self).state@.height == old(self).state@.height
                &&& final(self).state@.round == old(self).state@.round
                &&& final(self).state@.proposal == old(self).state@.proposal
                &&& final(self).state@.prevoted == old(self).state@.prevoted
                &&& final(self).finalized == old(self).finalized
                &&& old(self).spec_prevote_quorum(new_votes) ==> (final(self).state@.phase
                    == Phase::Commit && final(self).state@.locked_block == Some(
                    old(self).state@.proposal->Some_0.block_hash,
                ) && final(self).state@.locked_round == Some(old(self).state.round) && final(self).state@.committed && ev.len() == old_ev.len() + 1 && ev.drop_last() == old_ev && (
                ev.last() matches ConsensusEventView::BroadcastCommit(c) && c == (Commit {
                    height: old(self).state.height,
                    round: old(self).state.round,
                    block_hash: old(self).state@.proposal->Some_0.block_hash,
                    validator: old(self).our_id,
                    signature: c.signature,
                }) && c.signature.0@ == ed25519_sig_of(
                    old(self).keypair.secret_view(),
                    spec_commit_payload(
                        old(self).state.height,
                        old(self).state.round,
                        old(self).state@.proposal->Some_0.block_hash,
                    ),
                )))
                &&& !old(self).spec_prevote_quorum(new_votes) ==> (final(self).state@.phase == old(self).state@.phase && final(self).state@.locked_block == old(self).state@.locked_block
                    && final(self).state@.locked_round == old(self).state@.locked_round && final(self).state@.committed == old(self).state@.committed && final(self).events == old(self).events)
            },
    {
        if prevote.height != self.state.height {
            return Ok(ProcessResult::Ignored);
        }
        if prevote.round != self.state.round {
            return Ok(ProcessResult::Ignored);
        }
        if !self.validator_set.contains(&prevote.validator) {
            return Err(ConsensusError::UnknownValidator { validator: prevote.validator });
        }
        match self.verify_prevote_signature(&prevote) {
            Ok(()) => {},
            Err(e) => {
                return Err(e);
            },
        }
        if !self.state.prevotes.add(prevote) {
            return Ok(ProcessResult::Ignored);
        }
        let block_hash_opt: Option<BlockHash> = match &self.state.proposal {
            Some(p) => Some(p.block_hash),
            None => None,
        };
        match block_hash_opt {
            Some(block_hash) => {
                let weight = self.state.prevotes.weight_for_block(
                    &block_hash,
                    &self.validator_set,
                );
                let quorum = self.validator_set.quorum_threshold();
                if weight >= quorum && !self.state.committed {
                    self.state.phase = Phase::Commit;
                    self.state.locked_block = Some(block_hash);
                    self.state.locked_round = Some(self.state.round);
                    self.cast_commit(block_hash);
                }
            },
            None => {},
        }
        Ok(ProcessResult::Continue)
    }

    /// Process an incoming commit: reject wrong heights, unknown
    /// validators, bad signatures and duplicates; otherwise record the
    /// commit, and when the committed block reaches the quorum, build the
    /// finality certificate, record it, emit the finalization event and
    /// complete the round. Off-round commits still count at the current
    /// height.
    pub fn on_commit(&mut self, commit: Commit) -> (r: Result<ProcessResult, ConsensusError>)
        requires
            old(self).wf(),
        ensures
            final(self).wf(),
            final(self).validator_set == old(self).validator_set,
            final(self).our_id == old(self).our_id,
            final(self).keypair == old(self).keypair,
            final(self).config == old(self).config,
            commit.height != old(self).state.height ==> (r matches Ok(pr) && pr is Ignored
                && *final(self) == *old(self)),
            commit.height == old(self).state.height && !has_validator(
                old(self).validator_set.spec_validators(),
                commit.validator,
            ) ==> r == Err::<ProcessResult, ConsensusError>(
                ConsensusError::UnknownValidator { validator: commit.validator },
            ) && *final(self) == *old(self),
            commit.height == old(self).state.height && has_validator(
                old(self).validator_set.spec_validators(),
                commit.validator,
            ) && !old(self).commit_sig_ok(commit) ==> r == Err::<ProcessResult, ConsensusError>(
                ConsensusError::InvalidSignature { message_type: MessageClass::Commit },
            ) && *final(self) == *old(self),
            commit.height == old(self).state.height && has_validator(
                old(self).validator_set.spec_validators(),
                commit.validator,
            ) && old(self).commit_sig_ok(commit) && has_committer(
                old(self).state@.commits,
                commit.validator,
            ) ==> (r matches Ok(pr) && pr is Ignored && *final(self) == *old(self)),
            commit.height == old(self).state.height && has_validator(
                old(self).validator_set.spec_validators(),
                commit.validator,
            ) && old(self).commit_sig_ok(commit) && !has_committer(
                old(self).state@.commits,
                commit.validator,
            ) ==> {
                let new_commits = old(self).state@.commits.push(commit);
                let w = commit_weight_for(
                    new_commits,
                    old(self).validator_set.spec_validators(),
                    commit.block_hash,
                );
                let ev = events_view(final(self).events@);
                let old_ev = events_view(old(self).events@);
                &&& final(self).state@.commits == new_commits
                &&& final(self).state@.height == old(self).state@.height
                &&& final(self).state@.round == old(self).state@.round
                &&& final(self).state@.proposal == old(self).state@.proposal
                &&& final(self).state@.prevotes == old(self).state@.prevotes
                &&& final(self).state@.prevoted == old(self).state@.prevoted
                &&& final(self).state@.committed == old(self).state@.committed
                &&& final(self).state@.locked_block == old(self).state@.locked_block
                &&& final(self).state@.locked_round == old(self).state@.locked_round
                &&& w >= old(self).spec_quorum() ==> (r matches Ok(pr) && pr matches
                    ProcessResult::Finalized(cert) && cert@ == (FinalityCertificateView {
                    height: old(self).state.height,
                    block_hash: commit.block_hash,
                    commits: commits_for(new_commits, commit.block_hash),
                    total_weight: (w as u64),
                }) && final(self).state@.phase == Phase::Completed && spec_finalized_view(
                    final(self).finalized@,
                    old(self).state.height,
                ) == Some(cert@) && (forall|h: u64|
                    h != old(self).state.height ==> spec_finalized_view(final(self).finalized@, h)
                        == spec_finalized_view(old(self).finalized@, h)) && ev.len() == old_ev.len()
                    + 1 && ev.drop_last() == old_ev && (
                ev.last() matches ConsensusEventView::BlockFinalized {
                    height: eh,
                    block_hash: ebh,
                    certificate: ec,
                } && eh == old(self).state.height && ebh == commit.block_hash && ec == cert@))
                &&& w < old(self).spec_quorum() ==> (r matches Ok(pr) && pr is NeedMoreVotes
                    && final(self).state@.phase == old(self).state@.phase && final(self).finalized
                    == old(self).finalized && final(self).events == old(self).events)
            },
    {
        if commit.height != self.state.height {
            return Ok(ProcessResult::Ignored);
        }
        if !self.validator_set.contains(&commit.validator) {
            return Err(ConsensusError::UnknownValidator { validator: commit.validator });
        }
        match self.verify_commit_signature(&commit) {
            Ok(()) => {},
            Err(e) => {
                return Err(e);
            },
        }
        let block_hash = commit.block_hash;
        if !self.state.commits.add(commit) {
            return Ok(ProcessResult::Ignored);
        }
        let weight = self.state.commits.weight_for_block(&block_hash, &self.validator_set);
        let quorum = self.validator_set.quorum_threshold();
        if weight >= quorum {
            let commits = self.state.commits.commits_for_block(&block_hash);
            let certificate = FinalityCertificate::new(
                self.state.height,
                block_hash,
                commits,
                weight,
            );
            let stored = certificate.clone();
            let emitted = certificate.clone();
            self.finalized.push((self.state.height, stored));
            proof {
                assert(self.finalized@.drop_last() =~= old(self).finalized@);
            }
            self.events.push(
                ConsensusEvent::BlockFinalized {
                    height: self.state.height,
                    block_hash,
                    certificate: emitted,
                },
            );
            self.state.phase = Phase::Completed;
            proof {
                let ev = events_view(self.events@);
                let old_ev = events_view(old(self).events@);
                assert(ev.drop_last() =~= old_ev);
            }
            return Ok(ProcessResult::Finalized(certificate));
        }
        Ok(ProcessResult::NeedMoreVotes)
    }

    /// Handle a round timeout: emit the timeout event and advance to the
    /// next round, carrying the lock forward.
    pub fn on_timeout(&mut self) -> (r: Result<(), ConsensusError>)
        requires
            old(self).wf(),
            old(self).state.round < u64::MAX,
        ensures
            final(self).wf(),
            final(self).validator_set == old(self).validator_set,
            final(self).our_id == old(self).our_id,
            final(self).keypair == old(self).keypair,
            final(self).config == old(self).config,
            r is Ok,
            final(self).events@ == old(self).events@.push(
                ConsensusEvent::RoundTimeout {
                    height: old(self).state.height,
                    round: old(self).state.round,
                },
            ),
            final(self).state@.height == old(self).state.height,
            final(self).state@.round == old(self).state.round + 1,
            final(self).state@.phase == Phase::Propose,
            final(self).state@.proposal is None,
            final(self).state@.prevotes == Seq::<Prevote>::empty(),
            final(self).state@.commits == Seq::<Commit>::empty(),
            !final(self).state@.prevoted && !final(self).state@.committed,
            final(self).state@.locked_block == old(self).state@.locked_block,
            final(self).state@.locked_round == old(self).state@.locked_round,
            final(self).finalized == old(self).finalized,
    {
        self.events.push(
            ConsensusEvent::RoundTimeout { height: self.state.height, round: self.state.round },
        );
        let next = self.state.next_round();
        self.state = next;
        Ok(())
    }

    /// Check if a height has been finalized.
    pub fn is_finalized(&self, height: u64) -> (r: bool)
        ensures
            r <==> spec_finalized_view(self.finalized@, height) is Some,
    {
        let n = self.finalized.len();
        let mut i: usize = 0;
        while i < n
            invariant
                0 <= i <= n,
                n == self.finalized@.len(),
                forall|k: int| 0 <= k < i ==> self.finalized@[k].0 != height,
            decreases n - i,
        {
            if self.finalized[i].0 == height {
                proof {
                    lemma_finalized_dom(self.finalized@, height);
                }
                return true;
            }
            i += 1;
        }
        proof {
            lemma_finalized_dom(self.finalized@, height);
        }
        false
    }

    /// Get the finality certificate for a height, if the height is
    /// finalized; the most recently recorded certificate wins.
    pub fn get_finality_certificate(&self, height: u64) -> (r: Option<FinalityCertificate>)
        ensures
            r is Some <==> spec_finalized_view(self.finalized@, height) is Some,
            r matches Some(c) ==> Some(c@) == spec_finalized_view(self.finalized@, height),
    {
        let n = self.finalized.len();
        let mut i: usize = n;
        while i > 0
            invariant
                0 <= i <= n,
                n == self.finalized@.len(),
                forall|k: int| i <= k < n ==> self.finalized@[k].0 != height,
            decreases i,
        {
            i -= 1;
            if self.finalized[i].0 == height {
                proof {
                    lemma_finalized_skip(self.finalized@, height, i + 1);
                    assert(self.finalized@.take(i + 1).last() == self.finalized@[i as int]);
                    assert(self.finalized@.take(i + 1).len() == i + 1);
                }
                return Some(self.finalized[i].1.clone());
            }
        }
        proof {
            lemma_finalized_skip(self.finalized@, height, 0);
            assert(self.finalized@.take(0) =~= Seq::<(u64, FinalityCertificate)>::empty());
        }
        None
    }

    /// Fork choice: the canonical block hash at a height. A finality
    /// certificate decides first; at the current height, the committed
    /// hash with the greatest weight decides next (ties broken by
    /// lexicographic byte order, smallest first); the locked block is the
    /// fallback.
    pub fn fork_choice(&self, height: u64) -> (r: Option<BlockHash>)
        requires
            self.wf(),
        ensures
            spec_finalized_view(self.finalized@, height) matches Some(c) ==> r == Some(
                c.block_hash,
            ),
            spec_finalized_view(self.finalized@, height) is None && height != self.state.height
                ==> r == self.state.locked_block,
            spec_finalized_view(self.finalized@, height) is None && height == self.state.height
                ==> {
                let commits = self.state@.commits;
                let vs = self.validator_set.spec_validators();
                &&& (forall|k: int|
                    0 <= k < commits.len() ==> commit_weight_for(
                        commits,
                        vs,
                        (#[trigger] commits[k]).block_hash,
                    ) <= 0) ==> r == self.state.locked_block
                &&& (exists|k: int|
                    0 <= k < commits.len() && commit_weight_for(
                        commits,
                        vs,
                        (#[trigger] commits[k]).block_hash,
                    ) > 0) ==> (r matches Some(h) && commit_weight_for(commits, vs, h) > 0 && (
                exists|k: int|
                    0 <= k < commits.len() && (#[trigger] commits[k]).block_hash == h) && (
                forall|k: int|
                    0 <= k < commits.len() ==> {
                        let g = (#[trigger] commits[k]).block_hash;
                        commit_weight_for(commits, vs, g) < commit_weight_for(commits, vs, h) || (
                        commit_weight_for(commits, vs, g) == commit_weight_for(commits, vs, h)
                            && !crate::bytes::spec_hash_lt(g, h))
                    }))
            },
    {
        match self.get_finality_certificate(height) {
            Some(cert) => {
                return Some(cert.block_hash);
            },
            None => {},
        }
        if height != self.state.height {
            return self.state.locked_block;
        }
        let n = self.state.commits.commits.len();
        let mut best: Option<(BlockHash, u64)> = None;
        let mut i: usize = 0;
        while i < n
            invariant
                0 <= i <= n,
                self.wf(),
                n == self.state@.commits.len(),
                best is None ==> (forall|k: int|
                    0 <= k < i ==> commit_weight_for(
                        self.state@.commits,
                        self.validator_set.spec_validators(),
                        (#[trigger] self.state@.commits[k]).block_hash,
                    ) <= 0),
                best matches Some((h, w)) ==> w as int == commit_weight_for(
                    self.state@.commits,
                    self.validator_set.spec_validators(),
                    h,
                ) && w > 0 && (exists|k: int|
                    0 <= k < i && (#[trigger] self.state@.commits[k]).block_hash == h) && (
                forall|k: int|
                    0 <= k < i ==> {
                        let g = (#[trigger] self.state@.commits[k]).block_hash;
                        commit_weight_for(self.state@.commits, self.validator_set.spec_validators(), g)
                            < w as int || (commit_weight_for(
                            self.state@.commits,
                            self.validator_set.spec_validators(),
                            g,
                        ) == w as int && !crate::bytes::spec_hash_lt(g, h))
                    }),
            decreases n - i,
        {
            let g = self.state.commits.commits[i].block_hash;
            let w = self.state.commits.weight_for_block(&g, &self.validator_set);
            if w > 0 {
                let replace = match &best {
                    Some((bh, bw)) => w > *bw || (w == *bw && crate::bytes::hash_lt(&g, bh)),
                    None => true,
                };
                if replace {
                    best = Some((g, w));
                }
            }
            proof {
                assert(self.state@.commits[i as int].block_hash == g);
            }
            i += 1;
        }
        match best {
            Some((h, _)) => Some(h),
            None => self.state.locked_block,
        }
    }
}

proof fn lemma_finalized_dom(entries: Seq<(u64, FinalityCertificate)>, h: u64)
    ensures
        spec_finalized_view(entries, h) is Some <==> (exists|k: int|
            0 <= k < entries.len() && entries[k].0 == h),
    decreases entries.len(),
{
    if entries.len() > 0 {
        lemma_finalized_dom(entries.drop_last(), h);
        if entries.last().0 == h {
            assert(entries[entries.len() - 1].0 == h);
        } else if spec_finalized_view(entries, h) is Some {
            let k = choose|k: int|
                0 <= k < entries.drop_last().len() && entries.drop_last()[k].0 == h;
            assert(entries[k].0 == h);
        } else {
            if exists|k: int| 0 <= k < entries.len() && entries[k].0 == h {
                let k = choose|k: int| 0 <= k < entries.len() && entries[k].0 == h;
                assert(k < entries.len() - 1);
                assert(entries.drop_last()[k].0 == h);
            }
        }
    }
}

proof fn lemma_finalized_skip(entries: Seq<(u64, FinalityCertificate)>, h: u64, i: int)
    requires
        0 <= i <= entries.len(),
        forall|k: int| i <= k < entries.len() ==> entries[k].0 != h,
    ensures
        spec_finalized_view(entries, h) == spec_finalized_view(entries.take(i), h),
    decreases entries.len(),
{
    if i == entries.len() {
        assert(entries.take(i) =~= entries);
    } else {
        assert(entries.last().0 != h);
        assert(entries.drop_last().take(i) =~= entries.take(i));
        lemma_finalized_skip(entries.drop_last(), h, i);
    }
}

} // verus!