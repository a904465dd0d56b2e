use bftcore::validators::{Signature64, ValidatorId, ValidatorSet};
use bftcore::messages::{ConsensusMessage, Phase, Prevote, PrevoteSet, RoundState};

fn test_validator_set() -> ValidatorSet {
    let keys: Vec<[u8; 32]> = (0..4).map(|i| [i as u8; 32]).collect();
    ValidatorSet::new(keys)
}

#[test]
fn validator_set_quorum() {
    let vs = test_validator_set();
    assert_eq!(vs.len(), 4);
    assert_eq!(vs.total_weight(), 4);
    // Quorum = 2*4/3 + 1 = 3
    assert_eq!(vs.quorum_threshold(), 3);
    // Max faulty = (4-1)/3 = 1
    assert_eq!(vs.max_faulty(), 1);
}

#[test]
fn leader_rotation() {
    let vs = test_validator_set();
    let l0 = vs.leader_for_round(0).id;
    let l1 = vs.leader_for_round(1).id;
    let l4 = vs.leader_for_round(4).id;

    assert_ne!(l0, l1);
    assert_eq!(l0, l4); // Wraps around
}

#[test]
fn quorum_bounds_hold_for_small_sets() {
    for n in 1u64..=10 {
        let keys: Vec<[u8; 32]> = (0..n).map(|i| [i as u8; 32]).collect();
        let vs = ValidatorSet::new(keys);
        let w = vs.total_weight();
        let q = vs.quorum_threshold();
        let f = vs.max_faulty();
        assert!(3 * q > 2 * w);
        assert!(2 * q > w);
        assert!(q + f <= w);
    }
}

#[test]
fn prevote_set_aggregation() {
    let vs = test_validator_set();
    let mut prevotes = PrevoteSet::new();

    let block_hash = [1u8; 32];

    // Add prevotes from 3 validators for the same block
    for i in 0..3 {
        let prevote = Prevote {
            height: 1,
            round: 0,
            block_hash: Some(block_hash),
            validator: ValidatorId([i as u8; 32]),
            signature: Signature64::default(),
        };
        assert!(prevotes.add(prevote));
    }

    assert_eq!(prevotes.count(), 3);
    assert_eq!(prevotes.weight_for_block(&block_hash, &vs), 3);
}

#[test]
fn duplicate_vote_rejected() {
    let mut prevotes = PrevoteSet::new();

    let prevote = Prevote {
        height: 1,
        round: 0,
        block_hash: Some([1u8; 32]),
        validator: ValidatorId([0u8; 32]),
        signature: Signature64::default(),
    };

    assert!(prevotes.add(prevote.clone()));
    assert!(!prevotes.add(prevote)); // Duplicate
    assert_eq!(prevotes.count(), 1);
}

#[test]
fn duplicate_vote_rejected_for_other_block() {
    let mut prevotes = PrevoteSet::new();

    let prevote = Prevote {
        height: 1,
        round: 0,
        block_hash: Some([1u8; 32]),
        validator: ValidatorId([0u8; 32]),
        signature: Signature64::default(),
    };
    let other = Prevote { block_hash: Some([9u8; 32]), ..prevote.clone() };

    assert!(prevotes.add(prevote));
    assert!(!prevotes.add(other));
    assert_eq!(prevotes.count(), 1);
}

#[test]
fn round_state_progression() {
    let state = RoundState::new(1, 0);
    assert_eq!(state.phase, Phase::Propose);

    let next_round = state.next_round();
    assert_eq!(next_round.round, 1);
    assert_eq!(next_round.height, 1);

    let next_height = state.next_height();
    assert_eq!(next_height.height, 2);
    assert_eq!(next_height.round, 0);
}

#[test]
fn round_state_carries_lock_forward() {
    let mut state = RoundState::new(3, 2);
    state.locked_block = Some([7u8; 32]);
    state.locked_round = Some(2);

    let next_round = state.next_round();
    assert_eq!(next_round.locked_block, Some([7u8; 32]));
    assert_eq!(next_round.locked_round, Some(2));
    assert!(!next_round.prevoted);
    assert!(!next_round.committed);

    let next_height = state.next_height();
    assert_eq!(next_height.locked_block, None);
    assert_eq!(next_height.locked_round, None);
}

#[test]
fn validator_id_to_hex() {
    let id = ValidatorId([0xab; 32]);
    assert_eq!(id.to_hex(), "abababababababab");
}

#[test]
fn leading_block_picks_heaviest() {
    let vs = test_validator_set();
    let mut prevotes = PrevoteSet::new();
    for i in 0..2 {
        prevotes.add(Prevote {
            height: 1,
            round: 0,
            block_hash: Some([1u8; 32]),
            validator: ValidatorId([i as u8; 32]),
            signature: Signature64::default(),
        });
    }
    prevotes.add(Prevote {
        height: 1,
        round: 0,
        block_hash: Some([2u8; 32]),
        validator: ValidatorId([2u8; 32]),
        signature: Signature64::default(),
    });
    let (hash, weight) = prevotes.leading_block(&vs).unwrap();
    assert_eq!(hash, [1u8; 32]);
    assert_eq!(weight, 2);

    let empty = PrevoteSet::new();
    assert!(empty.leading_block(&vs).is_none());
}

#[test]
fn consensus_message_accessors() {
    let prevote = Prevote {
        height: 5,
        round: 2,
        block_hash: None,
        validator: ValidatorId([0u8; 32]),
        signature: Signature64::default(),
    };
    let msg = ConsensusMessage::Prevote(prevote);
    assert_eq!(msg.height(), 5);
    assert_eq!(msg.round(), 2);
    assert!(prevote_is_nil(&msg));
}

fn prevote_is_nil(msg: &ConsensusMessage) -> bool {
    match msg {
        ConsensusMessage::Prevote(v) => v.is_nil(),
        _ => false,
    }
}
