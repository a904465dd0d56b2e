use bftcore::config::ConsensusConfig;
use bftcore::crypto::Keypair;
use bftcore::engine::{ConsensusEngine, ConsensusError, ConsensusEvent, ProcessResult};
use bftcore::messages::{Commit, Phase, Prevote, Proposal};
use bftcore::validators::{Signature64, ValidatorId, ValidatorSet};

fn create_test_engine() -> ConsensusEngine {
    let keypair = Keypair::generate();
    let pubkey = keypair.public_key();

    let validator_set = ValidatorSet::new(vec![pubkey, [1u8; 32], [2u8; 32], [3u8; 32]]);

    ConsensusEngine::new(ConsensusConfig::default(), validator_set, keypair)
}

#[test]
fn engine_creation() {
    let engine = create_test_engine();
    assert_eq!(engine.current_height(), 1);
    assert_eq!(engine.current_round(), 0);
}

#[test]
fn start_new_height() {
    let mut engine = create_test_engine();
    engine.start_height(5).unwrap();
    assert_eq!(engine.current_height(), 5);
    assert_eq!(engine.current_round(), 0);
}

#[test]
fn timeout_advances_round() {
    let mut engine = create_test_engine();
    assert_eq!(engine.current_round(), 0);

    engine.on_timeout().unwrap();

    assert_eq!(engine.current_round(), 1);
    assert_eq!(engine.current_height(), 1); // Same height
}

#[test]
fn timeout_emits_event_and_resets_phase() {
    let mut engine = create_test_engine();
    engine.on_timeout().unwrap();

    let events = engine.take_events();
    assert!(events.iter().any(|e| matches!(
        e,
        ConsensusEvent::RoundTimeout { height: 1, round: 0 }
    )));
    assert_eq!(engine.state.phase, Phase::Propose);
    assert!(!engine.state.prevoted);
    assert!(!engine.state.committed);
}

/// Four validators, all of weight 1: the full propose → prevote → commit →
/// finalize path, driving each engine with the others' messages.
#[test]
fn quorum_path_four_validators() {
    let keypairs: Vec<Keypair> = (0..4).map(|_| Keypair::generate()).collect();
    let pubkeys: Vec<[u8; 32]> = keypairs.iter().map(|k| k.public_key()).collect();

    let mut engines: Vec<ConsensusEngine> = keypairs
        .into_iter()
        .map(|k| {
            ConsensusEngine::new(
                ConsensusConfig::default(),
                ValidatorSet::new(pubkeys.clone()),
                k,
            )
        })
        .collect();

    // The leader for round 0 is validator 0.
    assert!(engines[0].is_leader());
    assert!(!engines[1].is_leader());

    let block_hash = [0x11u8; 32];
    engines[0].propose([0u8; 32], block_hash, [0u8; 32], Vec::new()).unwrap();
    let events = engines[0].take_events();
    let proposal: Proposal = match events.into_iter().next().unwrap() {
        ConsensusEvent::BroadcastProposal(p) => p,
        _ => panic!("expected a proposal broadcast"),
    };
    assert_eq!(proposal.block_hash, block_hash);

    // Deliver the proposal everywhere; each engine auto-prevotes.
    let mut prevotes: Vec<Prevote> = Vec::new();
    for engine in engines.iter_mut() {
        engine.on_proposal(proposal.clone()).unwrap();
        for ev in engine.take_events() {
            if let ConsensusEvent::BroadcastPrevote(v) = ev {
                prevotes.push(v);
            }
        }
        assert_eq!(engine.state.phase, Phase::Prevote);
    }
    assert_eq!(prevotes.len(), 4);

    // Deliver three prevotes to every engine: quorum is 3, each commits.
    let mut commits: Vec<Commit> = Vec::new();
    for engine in engines.iter_mut() {
        for v in prevotes.iter().take(3) {
            engine.on_prevote(v.clone()).unwrap();
        }
        let mut committed = false;
        for ev in engine.take_events() {
            if let ConsensusEvent::BroadcastCommit(c) = ev {
                commits.push(c);
                committed = true;
            }
        }
        assert!(committed);
        assert_eq!(engine.state.phase, Phase::Commit);
        assert_eq!(engine.state.locked_block, Some(block_hash));
    }
    assert_eq!(commits.len(), 4);

    // Deliver three commits to every engine: each finalizes height 1.
    for engine in engines.iter_mut() {
        let mut finalized = false;
        for c in commits.iter().take(3) {
            match engine.on_commit(c.clone()).unwrap() {
                ProcessResult::Finalized(cert) => {
                    finalized = true;
                    assert_eq!(cert.height, 1);
                    assert_eq!(cert.block_hash, block_hash);
                    assert_eq!(cert.total_weight, 3);
                },
                _ => {},
            }
        }
        assert!(finalized);
        assert!(engine.is_finalized(1));
        assert_eq!(engine.state.phase, Phase::Completed);
        let cert = engine.get_finality_certificate(1).unwrap();
        assert_eq!(cert.total_weight, 3);
        assert_eq!(engine.fork_choice(1), Some(block_hash));
        let events = engine.take_events();
        assert!(events.iter().any(|e| matches!(
            e,
            ConsensusEvent::BlockFinalized { height: 1, .. }
        )));
    }
}

#[test]
fn wrong_leader_rejected() {
    let keypairs: Vec<Keypair> = (0..4).map(|_| Keypair::generate()).collect();
    let pubkeys: Vec<[u8; 32]> = keypairs.iter().map(|k| k.public_key()).collect();
    let expected_leader = ValidatorId(pubkeys[0]);

    let mut engines: Vec<ConsensusEngine> = keypairs
        .into_iter()
        .map(|k| {
            ConsensusEngine::new(
                ConsensusConfig::default(),
                ValidatorSet::new(pubkeys.clone()),
                k,
            )
        })
        .collect();

    // Validator 1 is not the round-0 leader: its proposal must be rejected.
    let rogue = engines.remove(1);
    let proposal = Proposal {
        height: 1,
        round: 0,
        prev_hash: [0u8; 32],
        block_hash: [0x22u8; 32],
        state_root: [0u8; 32],
        transactions: Vec::new(),
        proposer: *rogue.our_id(),
        signature: Signature64::default(),
    };

    match engines[0].on_proposal(proposal) {
        Err(ConsensusError::WrongLeader { expected, got }) => {
            assert_eq!(expected, expected_leader);
            assert_eq!(got, *rogue.our_id());
        },
        _ => panic!("expected WrongLeader"),
    }
    // Round state unchanged.
    assert!(engines[0].state.proposal.is_none());
    assert_eq!(engines[0].state.phase, Phase::Propose);
    assert!(engines[0].take_events().is_empty());
}

#[test]
fn unknown_validator_rejected() {
    let mut engine = create_test_engine();
    let stranger = ValidatorId([0x77u8; 32]);
    let prevote = Prevote {
        height: 1,
        round: 0,
        block_hash: None,
        validator: stranger,
        signature: Signature64::default(),
    };
    match engine.on_prevote(prevote) {
        Err(ConsensusError::UnknownValidator { validator }) => assert_eq!(validator, stranger),
        _ => panic!("expected UnknownValidator"),
    }
}

#[test]
fn bad_signature_rejected() {
    let mut engine = create_test_engine();
    // Validator [1u8; 32] is in the set but this vote carries a zero
    // signature, which cannot verify.
    let prevote = Prevote {
        height: 1,
        round: 0,
        block_hash: None,
        validator: ValidatorId([1u8; 32]),
        signature: Signature64::default(),
    };
    assert!(matches!(
        engine.on_prevote(prevote),
        Err(ConsensusError::InvalidSignature { .. })
    ));
}

#[test]
fn stale_messages_ignored() {
    let mut engine = create_test_engine();
    let prevote = Prevote {
        height: 9,
        round: 0,
        block_hash: None,
        validator: ValidatorId([1u8; 32]),
        signature: Signature64::default(),
    };
    assert!(matches!(engine.on_prevote(prevote), Ok(ProcessResult::Ignored)));

    let commit = Commit {
        height: 9,
        round: 0,
        block_hash: [0u8; 32],
        validator: ValidatorId([1u8; 32]),
        signature: Signature64::default(),
    };
    assert!(matches!(engine.on_commit(commit), Ok(ProcessResult::Ignored)));
}

#[test]
fn propose_from_non_leader_rejected() {
    // Make an engine whose key is NOT the round-0 leader.
    let keypair = Keypair::generate();
    let validator_set = ValidatorSet::new(vec![[1u8; 32], keypair.public_key(), [2u8; 32]]);
    let mut engine = ConsensusEngine::new(ConsensusConfig::default(), validator_set, keypair);
    assert!(!engine.is_leader());
    assert!(matches!(
        engine.propose([0u8; 32], [1u8; 32], [0u8; 32], Vec::new()),
        Err(ConsensusError::WrongLeader { .. })
    ));
}

#[test]
fn fork_choice_falls_back_to_lock() {
    let mut engine = create_test_engine();
    engine.state.locked_block = Some([5u8; 32]);
    assert_eq!(engine.fork_choice(1), Some([5u8; 32]));
    assert_eq!(engine.is_finalized(1), false);
}

/// Quorum safety with four validators and one faulty: splitting commits
/// between two block hashes can never produce two finality certificates at
/// one height; with the votes split two against two, neither hash
/// finalizes at all.
#[test]
fn no_two_finality_certificates() {
    let keypairs: Vec<Keypair> = (0..4).map(|_| Keypair::generate()).collect();
    let pubkeys: Vec<[u8; 32]> = keypairs.iter().map(|k| k.public_key()).collect();
    let vs = ValidatorSet::new(pubkeys.clone());

    let hash_a = [0xaau8; 32];
    let hash_b = [0xbbu8; 32];

    // Each validator signs one commit; two for A, two for B.
    let mut commits: Vec<Commit> = Vec::new();
    for (i, k) in keypairs.iter().enumerate() {
        let block_hash = if i < 2 { hash_a } else { hash_b };
        let mut c = Commit {
            height: 1,
            round: 0,
            block_hash,
            validator: bftcore::validators::ValidatorId(pubkeys[i]),
            signature: Signature64::default(),
        };
        let sig = k.sign(c.signing_payload().as_slice());
        c.signature = Signature64(sig);
        commits.push(c);
    }

    // The observer engine watches the same validator set; it holds a key of
    // its own but only counts the four validators' commits.
    let observer = Keypair::generate();
    let mut engine = ConsensusEngine::new(
        ConsensusConfig::default(),
        ValidatorSet::new(pubkeys.clone()),
        observer,
    );

    for c in commits {
        let result = engine.on_commit(c);
        assert!(matches!(result, Ok(ProcessResult::NeedMoreVotes)));
    }
    // Two commits each: quorum 3 is out of reach for both hashes.
    assert_eq!(engine.state.commits.weight_for_block(&hash_a, &ValidatorSet::new(pubkeys.clone())), 2);
    assert_eq!(engine.state.commits.weight_for_block(&hash_b, &ValidatorSet::new(pubkeys)), 2);
    assert!(!engine.is_finalized(1));
    assert!(engine.get_finality_certificate(1).is_none());
    assert_ne!(engine.state.phase, Phase::Completed);
    // Fork choice at the current height with tied weights picks the
    // lexicographically smaller hash.
    assert_eq!(engine.fork_choice(1), Some(hash_a));
}
