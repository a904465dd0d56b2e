use bftcore::block::Block;
use bftcore::codec::{
    decode_block,
    decode_certificate,
    decode_round_state,
    decode_state,
    decode_transaction,
    encode_block,
    encode_certificate,
    encode_round_state,
    encode_state,
    encode_transaction,
};
use bftcore::messages::{
    Commit,
    CommitSet,
    FinalityCertificate,
    Phase,
    Prevote,
    PrevoteSet,
    Proposal,
    RoundState,
};
use bftcore::node::{derive_node_id, ingest_block, ingest_transaction};
use bftcore::runtime::Runtime;
use bftcore::state::State;
use bftcore::store::{
    block_file_name,
    finality_file_name,
    latest_block_height_in,
    latest_finalized_height_in,
    parse_block_file_name,
    parse_finality_file_name,
    parse_u64_decimal,
    snapshot_file_name,
    u64_to_decimal,
};
use bftcore::tx::Transaction;
use bftcore::validators::{Signature64, ValidatorId};
use bftcore::crypto::Keypair;

fn sample_tx() -> Transaction {
    let mut tx = Transaction::with_payload([1u8; 32], [2u8; 32], 77, 3, vec![9, 8, 7]);
    tx.set_signature([5u8; 64]);
    tx
}

#[test]
fn transaction_round_trip() {
    let tx = sample_tx();
    let bytes = encode_transaction(&tx);
    let (decoded, used) = decode_transaction(bytes.as_slice(), 0).unwrap();
    assert_eq!(used, bytes.len());
    assert_eq!(decoded.from, tx.from);
    assert_eq!(decoded.to, tx.to);
    assert_eq!(decoded.amount, tx.amount);
    assert_eq!(decoded.nonce, tx.nonce);
    assert_eq!(decoded.payload, tx.payload);
    assert_eq!(decoded.signature, tx.signature);
}

#[test]
fn truncated_transaction_rejected() {
    let bytes = encode_transaction(&sample_tx());
    let cut = &bytes[..bytes.len() - 1];
    assert!(decode_transaction(cut, 0).is_none());
}

#[test]
fn block_round_trip() {
    let block = Block::with_timestamp(
        4,
        [3u8; 32],
        [4u8; 32],
        1234,
        vec![sample_tx(), Transaction::new([5u8; 32], [6u8; 32], 1, 0)],
        [7u8; 32],
    );
    let bytes = encode_block(&block);
    let (decoded, used) = decode_block(bytes.as_slice(), 0).unwrap();
    assert_eq!(used, bytes.len());
    assert_eq!(decoded.height, 4);
    assert_eq!(decoded.parent_hash, [3u8; 32]);
    assert_eq!(decoded.state_root, [4u8; 32]);
    assert_eq!(decoded.timestamp, 1234);
    assert_eq!(decoded.tx_count(), 2);
    assert_eq!(decoded.txs[0].amount, 77);
    assert_eq!(decoded.producer, [7u8; 32]);
    assert_eq!(decoded.signing_bytes(), block.signing_bytes());
    assert_eq!(decoded.hash(), block.hash());
}

#[test]
fn state_round_trip() {
    let mut state = State::new();
    state.height = 12;
    state.set_balance(&[1u8; 32], 500);
    state.set_balance(&[2u8; 32], 700);
    state.increment_nonce(&[1u8; 32]);
    state.compute_state_root();

    let bytes = encode_state(&state);
    let (decoded, used) = decode_state(bytes.as_slice(), 0).unwrap();
    assert_eq!(used, bytes.len());
    assert_eq!(decoded.height, 12);
    assert_eq!(decoded.state_root, state.state_root);
    assert_eq!(decoded.balance(&[1u8; 32]), 500);
    assert_eq!(decoded.balance(&[2u8; 32]), 700);
    assert_eq!(decoded.nonce(&[1u8; 32]), 1);
}

#[test]
fn round_state_round_trip() {
    let mut rs = RoundState::new(10, 3);
    rs.phase = Phase::Prevote;
    rs.proposal = Some(Proposal {
        height: 10,
        round: 3,
        prev_hash: [1u8; 32],
        block_hash: [2u8; 32],
        state_root: [3u8; 32],
        transactions: vec![1, 2, 3],
        proposer: ValidatorId([4u8; 32]),
        signature: Signature64([6u8; 64]),
    });
    let mut prevotes = PrevoteSet::new();
    prevotes.add(Prevote {
        height: 10,
        round: 3,
        block_hash: None,
        validator: ValidatorId([8u8; 32]),
        signature: Signature64::default(),
    });
    rs.prevotes = prevotes;
    let mut commits = CommitSet::new();
    commits.add(Commit {
        height: 10,
        round: 3,
        block_hash: [2u8; 32],
        validator: ValidatorId([9u8; 32]),
        signature: Signature64::default(),
    });
    rs.commits = commits;
    rs.prevoted = true;
    rs.locked_block = Some([2u8; 32]);
    rs.locked_round = Some(3);

    let bytes = encode_round_state(&rs);
    let (decoded, used) = decode_round_state(bytes.as_slice(), 0).unwrap();
    assert_eq!(used, bytes.len());
    assert_eq!(decoded.height, 10);
    assert_eq!(decoded.round, 3);
    assert_eq!(decoded.phase, Phase::Prevote);
    assert_eq!(decoded.proposal.as_ref().unwrap().block_hash, [2u8; 32]);
    assert_eq!(decoded.prevotes.count(), 1);
    assert_eq!(decoded.commits.count(), 1);
    assert!(decoded.prevoted);
    assert!(!decoded.committed);
    assert_eq!(decoded.locked_block, Some([2u8; 32]));
    assert_eq!(decoded.locked_round, Some(3));
}

#[test]
fn certificate_round_trip() {
    let commits = vec![
        Commit {
            height: 9,
            round: 1,
            block_hash: [9u8; 32],
            validator: ValidatorId([1u8; 32]),
            signature: Signature64([1u8; 64]),
        },
        Commit {
            height: 9,
            round: 1,
            block_hash: [9u8; 32],
            validator: ValidatorId([2u8; 32]),
            signature: Signature64([2u8; 64]),
        },
    ];
    let cert = FinalityCertificate::new(9, [9u8; 32], commits, 2);
    let bytes = encode_certificate(&cert);
    let (decoded, used) = decode_certificate(bytes.as_slice(), 0).unwrap();
    assert_eq!(used, bytes.len());
    assert_eq!(decoded.height, 9);
    assert_eq!(decoded.block_hash, [9u8; 32]);
    assert_eq!(decoded.commits.len(), 2);
    assert_eq!(decoded.commits[1].validator, ValidatorId([2u8; 32]));
    assert_eq!(decoded.total_weight, 2);
}

#[test]
fn recovery_artifacts_round_trip() {
    // A crash-recovery readback: the persisted round state and the latest
    // finalized height are observed on reopen.
    let rs = RoundState::new(10, 3);
    let bytes = encode_round_state(&rs);
    let (loaded, _) = decode_round_state(bytes.as_slice(), 0).unwrap();
    assert_eq!(loaded.height, 10);
    assert_eq!(loaded.round, 3);

    let names: Vec<Vec<u8>> = vec![
        finality_file_name(9),
        b"round_state.json".to_vec(),
        finality_file_name(4),
    ];
    assert_eq!(latest_finalized_height_in(&names), Some(9));
}

#[test]
fn decimal_rendering_and_parsing() {
    assert_eq!(u64_to_decimal(0), b"0".to_vec());
    assert_eq!(u64_to_decimal(123456), b"123456".to_vec());
    assert_eq!(parse_u64_decimal(b"000123"), Some(123));
    assert_eq!(parse_u64_decimal(b""), None);
    assert_eq!(parse_u64_decimal(b"12a"), None);
    assert_eq!(parse_u64_decimal(b"18446744073709551615"), Some(u64::MAX));
    assert_eq!(parse_u64_decimal(b"18446744073709551616"), None);
}

#[test]
fn block_file_names() {
    assert_eq!(block_file_name(123), b"000123.block".to_vec());
    assert_eq!(block_file_name(1234567), b"1234567.block".to_vec());
    assert_eq!(parse_block_file_name(b"000123.block"), Some(123));
    assert_eq!(parse_block_file_name(b"000123.tmp"), None);
    assert_eq!(parse_block_file_name(b"abc.block"), None);
    assert_eq!(snapshot_file_name(7), b"snapshot_000007.state".to_vec());
}

#[test]
fn finality_file_names() {
    assert_eq!(finality_file_name(1), b"finality_00000001.json".to_vec());
    assert_eq!(parse_finality_file_name(b"finality_00000001.json"), Some(1));
    assert_eq!(parse_finality_file_name(b"validators.json"), None);
}

#[test]
fn latest_block_height_scans_names() {
    let names: Vec<Vec<u8>> = vec![
        b"000001.block".to_vec(),
        b"000005.block".to_vec(),
        b"000003.block".to_vec(),
        b"000009.block.tmp".to_vec(),
        b"junk".to_vec(),
    ];
    assert_eq!(latest_block_height_in(&names), Some(5));
    let empty: Vec<Vec<u8>> = Vec::new();
    assert_eq!(latest_block_height_in(&empty), None);
}

fn envelope_for(keypair: &Keypair, data: &[u8]) -> Vec<u8> {
    let mut payload = Vec::new();
    payload.extend_from_slice(data);
    payload.extend_from_slice(&keypair.public_key());
    let signature = keypair.sign(data);
    payload.extend_from_slice(&signature);
    payload
}

#[test]
fn ingest_transaction_pipeline() {
    let mut rt = Runtime::new();
    rt.state.set_balance(&[1u8; 32], 1000);

    let tx = Transaction::new([1u8; 32], [2u8; 32], 100, 0);
    let data = encode_transaction(&tx);
    let keypair = Keypair::generate();
    let payload = envelope_for(&keypair, data.as_slice());

    let echoed = ingest_transaction(&mut rt, payload.as_slice()).unwrap();
    assert_eq!(echoed.amount, 100);
    assert_eq!(rt.mempool_size(), 1);

    // Garbage after the envelope check fails decoding.
    let bad = envelope_for(&keypair, b"not a transaction");
    assert!(ingest_transaction(&mut rt, bad.as_slice()).is_err());

    // A bad signature fails validation.
    let mut corrupted = payload.clone();
    let n = corrupted.len();
    corrupted[n - 1] ^= 0xff;
    assert!(ingest_transaction(&mut rt, corrupted.as_slice()).is_err());
}

#[test]
fn ingest_block_pipeline() {
    // One runtime produces the block; a second ingests its bytes.
    let mut producer = Runtime::new();
    producer.state.set_balance(&[1u8; 32], 1000);
    producer.submit_transaction(Transaction::new([1u8; 32], [2u8; 32], 250, 0)).unwrap();
    let block = producer.produce_block_at([9u8; 32], 77);

    let mut receiver = Runtime::new();
    receiver.state.set_balance(&[1u8; 32], 1000);

    let data = encode_block(&block);
    let keypair = Keypair::generate();
    let payload = envelope_for(&keypair, data.as_slice());

    let applied = ingest_block(&mut receiver, payload.as_slice()).unwrap();
    assert_eq!(applied.height, 1);
    assert_eq!(receiver.height(), 1);
    assert_eq!(receiver.state.balance(&[1u8; 32]), 750);
    assert_eq!(receiver.state.balance(&[2u8; 32]), 250);
    assert_eq!(receiver.last_block_hash(), block.hash());
}

#[test]
fn derive_node_id_pads_and_truncates() {
    assert_eq!(derive_node_id(&None), [0u8; 32]);
    let key = vec![7u8; 4];
    let id = derive_node_id(&Some(key));
    assert_eq!(&id[..4], &[7u8; 4]);
    assert_eq!(&id[4..], &[0u8; 28]);
}
