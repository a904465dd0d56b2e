use bftcore::crypto::{verify_block, verify_signature, verify_transaction, Keypair, ValidationError};

#[test]
fn test_sign_and_verify() {
    let keypair = Keypair::generate();
    let message = b"hello world";
    let signature = keypair.sign(message);

    let result = verify_signature(&keypair.public_key(), message, &signature);
    assert!(result.is_ok());
}

#[test]
fn test_reject_wrong_message() {
    let keypair = Keypair::generate();
    let signature = keypair.sign(b"original message");

    let result = verify_signature(&keypair.public_key(), b"wrong message", &signature);
    assert!(result.is_err());
}

#[test]
fn test_reject_wrong_key() {
    let keypair1 = Keypair::generate();
    let keypair2 = Keypair::generate();
    let message = b"hello";
    let signature = keypair1.sign(message);

    let result = verify_signature(&keypair2.public_key(), message, &signature);
    assert!(result.is_err());
}

#[test]
fn test_keypair_from_secret() {
    let secret = [42u8; 32];
    let keypair1 = Keypair::from_secret(&secret);
    let keypair2 = Keypair::from_secret(&secret);

    assert_eq!(keypair1.public_key(), keypair2.public_key());
    // The public key is derived, never the secret itself.
    assert_ne!(keypair1.public_key(), secret);
}

#[test]
fn sign_message_matches_keypair_sign() {
    let secret = [7u8; 32];
    let keypair = Keypair::from_secret(&secret);
    let message = b"payload";
    assert_eq!(bftcore::crypto::sign_message(&secret, message), keypair.sign(message));
}

#[test]
fn reject_invalid_public_key() {
    // Roughly half of all 32-byte strings fail Ed25519 point decompression;
    // find one among constant patterns and check the error variant.
    let mut found = false;
    for a in 0..=255u8 {
        let candidate = [a; 32];
        if verify_signature(&candidate, b"data", &[0u8; 64])
            == Err(ValidationError::InvalidPublicKey)
        {
            found = true;
            break;
        }
    }
    assert!(found);
}

#[test]
fn test_reject_short_payload() {
    let short = vec![0u8; 50];
    assert!(verify_transaction(&short).is_err());
}

#[test]
fn test_verify_valid_transaction() {
    let keypair = Keypair::generate();
    let data = b"test transaction data";

    let mut payload = Vec::new();
    payload.extend_from_slice(data);
    payload.extend_from_slice(&keypair.public_key());

    let signature = keypair.sign(data);
    payload.extend_from_slice(&signature);

    let result = verify_transaction(&payload);
    assert!(result.is_ok());

    let verified = result.unwrap();
    assert_eq!(verified.signer, keypair.public_key());
    assert_eq!(verified.data, data);
}

#[test]
fn test_reject_invalid_signature() {
    let keypair = Keypair::generate();
    let data = b"test transaction data";

    let mut payload = Vec::new();
    payload.extend_from_slice(data);
    payload.extend_from_slice(&keypair.public_key());
    payload.extend_from_slice(&[0u8; 64]); // Invalid signature

    let result = verify_transaction(&payload);
    assert!(result.is_err());
}

#[test]
fn verify_block_envelope() {
    let keypair = Keypair::generate();
    let data = b"block bytes";

    let mut payload = Vec::new();
    payload.extend_from_slice(data);
    payload.extend_from_slice(&keypair.public_key());
    let signature = keypair.sign(data);
    payload.extend_from_slice(&signature);

    let verified = verify_block(&payload).unwrap();
    assert_eq!(verified.producer, keypair.public_key());
    assert_eq!(verified.data(), data);
}

#[test]
fn short_payload_reports_its_length() {
    match verify_transaction(&[0u8; 10]) {
        Err(ValidationError::InvalidFormat { length }) => assert_eq!(length, 10),
        _ => panic!("expected InvalidFormat"),
    }
}

#[test]
fn test_verified_transaction_accessors() {
    let vt = bftcore::crypto::VerifiedTransaction {
        data: vec![1, 2, 3],
        signer: [1u8; 32],
        signature: [2u8; 64],
    };

    assert_eq!(vt.data(), &[1, 2, 3]);
    assert_eq!(vt.signer(), &[1u8; 32]);
}

#[test]
fn test_verified_block_accessors() {
    let vb = bftcore::crypto::VerifiedBlock {
        data: vec![4, 5, 6],
        producer: [3u8; 32],
        signature: [4u8; 64],
    };

    assert_eq!(vb.data(), &[4, 5, 6]);
    assert_eq!(vb.producer(), &[3u8; 32]);
}
