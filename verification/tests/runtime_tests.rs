use bftcore::block::Block;
use bftcore::runtime::{Runtime, RuntimeError};
use bftcore::state::State;
use bftcore::tx::Transaction;

fn funded_runtime() -> Runtime {
    let mut runtime = Runtime::new();
    // Fund an account for testing
    runtime.state.set_balance(&[1u8; 32], 1000);
    runtime
}

#[test]
fn test_new_runtime() {
    let runtime = Runtime::new();
    assert_eq!(runtime.height(), 0);
    assert_eq!(runtime.mempool_size(), 0);
}

#[test]
fn test_submit_valid_transaction() {
    let mut runtime = funded_runtime();
    let tx = Transaction::new([1u8; 32], [2u8; 32], 100, 0);

    assert!(runtime.submit_transaction(tx).is_ok());
    assert_eq!(runtime.mempool_size(), 1);
}

#[test]
fn test_reject_insufficient_balance() {
    let mut runtime = Runtime::new();
    let tx = Transaction::new([1u8; 32], [2u8; 32], 100, 0);

    let result = runtime.submit_transaction(tx);
    assert!(result.is_err());
    match result {
        Err(RuntimeError::InvalidTransaction { available, needed }) => {
            assert_eq!(available, 0);
            assert_eq!(needed, 100);
        },
        _ => panic!("expected InvalidTransaction"),
    }
}

#[test]
fn test_produce_block() {
    let mut runtime = funded_runtime();
    let tx = Transaction::new([1u8; 32], [2u8; 32], 100, 0);
    runtime.submit_transaction(tx).unwrap();

    let block = runtime.produce_block([3u8; 32]);

    assert_eq!(block.height, 1);
    assert_eq!(block.tx_count(), 1);
    assert_eq!(runtime.height(), 1);
    assert_eq!(runtime.mempool_size(), 0);
}

#[test]
fn test_state_transition() {
    let mut runtime = funded_runtime();
    let sender = [1u8; 32];
    let recipient = [2u8; 32];

    let tx = Transaction::new(sender, recipient, 100, 0);
    runtime.submit_transaction(tx).unwrap();
    runtime.produce_block([3u8; 32]);

    assert_eq!(runtime.state.balance(&sender), 900);
    assert_eq!(runtime.state.balance(&recipient), 100);
    assert_eq!(runtime.state.nonce(&sender), 1);
}

#[test]
fn test_nonce_enforcement() {
    let mut runtime = funded_runtime();
    let sender = [1u8; 32];

    // First tx with nonce 0 should succeed
    let tx1 = Transaction::new(sender, [2u8; 32], 100, 0);
    assert!(runtime.submit_transaction(tx1).is_ok());

    // Second tx with nonce 0 should fail (duplicate)
    let tx2 = Transaction::new(sender, [2u8; 32], 100, 0);
    assert!(runtime.submit_transaction(tx2).is_err());
}

#[test]
fn nonce_admission_under_mempool_pressure() {
    let mut runtime = Runtime::new();
    let a = [1u8; 32];
    let b = [2u8; 32];
    runtime.state.set_balance(&a, 1000);

    let tx1 = Transaction::new(a, b, 100, 0);
    assert!(runtime.submit_transaction(tx1).is_ok());

    let tx2 = Transaction::new(a, b, 100, 0);
    match runtime.submit_transaction(tx2) {
        Err(RuntimeError::DuplicateNonce { nonce }) => assert_eq!(nonce, 0),
        _ => panic!("expected DuplicateNonce"),
    }

    let tx3 = Transaction::new(a, b, 100, 1);
    assert!(runtime.submit_transaction(tx3).is_ok());

    let block = runtime.produce_block([9u8; 32]);
    assert_eq!(block.height, 1);
    assert_eq!(block.tx_count(), 2);

    assert_eq!(runtime.state.balance(&a), 800);
    assert_eq!(runtime.state.balance(&b), 200);
    assert_eq!(runtime.state.nonce(&a), 2);
    assert_eq!(runtime.mempool_size(), 0);
}

#[test]
fn pending_amounts_limit_admission() {
    let mut runtime = Runtime::new();
    let a = [1u8; 32];
    runtime.state.set_balance(&a, 150);

    assert!(runtime.submit_transaction(Transaction::new(a, [2u8; 32], 100, 0)).is_ok());
    // Only 50 left after the pending 100
    assert!(runtime.submit_transaction(Transaction::new(a, [2u8; 32], 100, 1)).is_err());
    assert!(runtime.submit_transaction(Transaction::new(a, [2u8; 32], 50, 1)).is_ok());
}

#[test]
fn validate_block_checks_height_and_parent() {
    let runtime = Runtime::new();
    let genesis_hash = runtime.last_block_hash();

    let wrong_height = Block::with_timestamp(5, genesis_hash, [0u8; 32], 0, Vec::new(), [0u8; 32]);
    match runtime.validate_block(&wrong_height) {
        Err(RuntimeError::HeightMismatch { expected, got }) => {
            assert_eq!(expected, 1);
            assert_eq!(got, 5);
        },
        _ => panic!("expected HeightMismatch"),
    }

    let wrong_parent = Block::with_timestamp(1, [9u8; 32], [0u8; 32], 0, Vec::new(), [0u8; 32]);
    match runtime.validate_block(&wrong_parent) {
        Err(RuntimeError::InvalidBlock { expected_parent, got_parent }) => {
            assert_eq!(expected_parent, genesis_hash);
            assert_eq!(got_parent, [9u8; 32]);
        },
        _ => panic!("expected InvalidBlock"),
    }

    let good = Block::with_timestamp(1, genesis_hash, [0u8; 32], 0, Vec::new(), [0u8; 32]);
    assert!(runtime.validate_block(&good).is_ok());
}

#[test]
fn apply_block_rejects_unpayable_transaction() {
    let mut runtime = Runtime::new();
    let genesis_hash = runtime.last_block_hash();
    let tx = Transaction::new([1u8; 32], [2u8; 32], 100, 0);
    let block = Block::with_timestamp(1, genesis_hash, [0u8; 32], 0, vec![tx], [0u8; 32]);
    match runtime.apply_block(&block) {
        Err(RuntimeError::StateTransitionFailed { nonce }) => assert_eq!(nonce, 0),
        _ => panic!("expected StateTransitionFailed"),
    }
    // Header fields unchanged on failure
    assert_eq!(runtime.height(), 0);
    assert_eq!(runtime.last_block_hash(), genesis_hash);
}

#[test]
fn runtime_determinism_same_inputs_same_block() {
    let build = || {
        let mut rt = Runtime::new();
        rt.state.set_balance(&[1u8; 32], 500);
        rt.submit_transaction(Transaction::new([1u8; 32], [2u8; 32], 60, 0)).unwrap();
        rt.submit_transaction(Transaction::new([1u8; 32], [3u8; 32], 40, 1)).unwrap();
        rt
    };
    let mut r1 = build();
    let mut r2 = build();
    let b1 = r1.produce_block_at([7u8; 32], 1234);
    let b2 = r2.produce_block_at([7u8; 32], 1234);

    assert_eq!(b1.height, b2.height);
    assert_eq!(b1.parent_hash, b2.parent_hash);
    assert_eq!(b1.state_root, b2.state_root);
    assert_eq!(b1.timestamp, b2.timestamp);
    assert_eq!(b1.producer, b2.producer);
    assert_eq!(b1.signature, b2.signature);
    assert_eq!(b1.signing_bytes(), b2.signing_bytes());
    assert_eq!(b1.hash(), b2.hash());
    assert_eq!(r1.state.balance(&[1u8; 32]), r2.state.balance(&[1u8; 32]));
    assert_eq!(r1.state.balance(&[2u8; 32]), r2.state.balance(&[2u8; 32]));
    assert_eq!(r1.state.nonce(&[1u8; 32]), r2.state.nonce(&[1u8; 32]));
}

#[test]
fn test_new_state() {
    let state = State::new();
    assert_eq!(state.height, 0);
    assert_eq!(state.state_root, [0u8; 32]);
}

#[test]
fn test_balance_operations() {
    let mut state = State::new();
    let addr = [1u8; 32];

    assert_eq!(state.balance(&addr), 0);
    state.set_balance(&addr, 1000);
    assert_eq!(state.balance(&addr), 1000);
}

#[test]
fn test_nonce_operations() {
    let mut state = State::new();
    let addr = [1u8; 32];

    assert_eq!(state.nonce(&addr), 0);
    state.increment_nonce(&addr);
    assert_eq!(state.nonce(&addr), 1);
    state.increment_nonce(&addr);
    assert_eq!(state.nonce(&addr), 2);
}

#[test]
fn state_root_tracks_height() {
    let mut state = State::new();
    state.height = 7;
    state.compute_state_root();
    let mut expected = [0u8; 32];
    expected[0] = 7;
    assert_eq!(state.state_root, expected);
}

#[test]
fn test_new_transaction() {
    let from = [1u8; 32];
    let to = [2u8; 32];
    let tx = Transaction::new(from, to, 100, 0);

    assert_eq!(tx.from, from);
    assert_eq!(tx.to, to);
    assert_eq!(tx.amount, 100);
    assert_eq!(tx.nonce, 0);
    assert!(tx.payload.is_empty());
}

#[test]
fn test_signing_bytes_deterministic() {
    let tx1 = Transaction::new([1u8; 32], [2u8; 32], 100, 0);
    let tx2 = Transaction::new([1u8; 32], [2u8; 32], 100, 0);

    assert_eq!(tx1.signing_bytes(), tx2.signing_bytes());
}

#[test]
fn signing_bytes_ignore_signature() {
    let mut tx1 = Transaction::new([1u8; 32], [2u8; 32], 100, 0);
    let tx2 = Transaction::new([1u8; 32], [2u8; 32], 100, 0);
    tx1.set_signature([9u8; 64]);
    assert_eq!(tx1.signing_bytes(), tx2.signing_bytes());
}

#[test]
fn test_genesis_block() {
    let genesis = Block::genesis();
    assert_eq!(genesis.height, 0);
    assert!(genesis.is_genesis());
    assert_eq!(genesis.parent_hash, [0u8; 32]);
}

#[test]
fn test_block_hash_deterministic() {
    let block1 = Block::genesis();
    let block2 = Block::genesis();
    assert_eq!(block1.hash(), block2.hash());
}

#[test]
fn test_block_with_transactions() {
    let tx = Transaction::new([1u8; 32], [2u8; 32], 100, 0);
    let block = Block::new(1, [0u8; 32], [0u8; 32], vec![tx], [3u8; 32]);

    assert_eq!(block.height, 1);
    assert_eq!(block.tx_count(), 1);
    assert!(!block.is_genesis());
}
