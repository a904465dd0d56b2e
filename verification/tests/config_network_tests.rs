use bftcore::config::{ConsensusConfig, NodeConfig};
use bftcore::network::{
    BlockMessage,
    HandshakeMessage,
    Network,
    NetworkConfig,
    NetworkEvent,
    NetworkMessage,
    PeerId,
    PeerInfo,
    TransactionMessage,
};

#[test]
fn default_config() {
    let config = ConsensusConfig::default();
    assert_eq!(config.propose_timeout, 3000);
    assert_eq!(config.prevote_timeout, 2000);
    assert_eq!(config.max_rounds, 10);
}

#[test]
fn exponential_backoff() {
    let config = ConsensusConfig::default();

    let t0 = config.propose_timeout_for_round(0);
    let t1 = config.propose_timeout_for_round(1);
    let t2 = config.propose_timeout_for_round(2);

    assert!(t1 > t0);
    assert!(t2 > t1);
    assert_eq!(t1 - t0, config.timeout_delta);
}

#[test]
fn backoff_exact_values() {
    let config = ConsensusConfig::default();
    assert_eq!(config.propose_timeout_for_round(0), 3000);
    assert_eq!(config.propose_timeout_for_round(2), 4000);
    assert_eq!(config.prevote_timeout_for_round(1), 2500);
    assert_eq!(config.commit_timeout_for_round(4), 4000);
}

#[test]
fn test_default_config() {
    let config = NodeConfig::default();
    assert_eq!(config.network.listen_port, 30303);
    assert_eq!(config.network.max_peers, 50);
    assert_eq!(config.runtime.chain_id, "unykorn-devnet");
}

#[test]
fn test_dev_config() {
    let config = NodeConfig::dev();
    assert!(config.runtime.producer_enabled);
    assert_eq!(config.network.max_peers, 10);
    assert_eq!(config.runtime.chain_id, "unykorn-dev");
    assert_eq!(config.runtime.producer_key, Some("0".repeat(64)));
}

#[test]
fn test_transaction_message() {
    let payload = vec![1, 2, 3, 4];
    let msg = TransactionMessage::new(payload.clone());

    assert_eq!(msg.payload, payload);
    assert!(msg.timestamp > 0);
}

#[test]
fn test_block_message() {
    let msg = BlockMessage::new(vec![1, 2, 3], 10);

    assert_eq!(msg.height, 10);
    assert_eq!(msg.payload, vec![1, 2, 3]);
}

#[test]
fn test_handshake_message() {
    let chain_id = [1u8; 32];
    let node_id = [2u8; 32];
    let msg = HandshakeMessage::new(chain_id, 100, node_id);

    assert_eq!(msg.version, 1);
    assert_eq!(msg.chain_id, chain_id);
    assert_eq!(msg.height, 100);
}

#[test]
fn test_peer_id_display() {
    let id = PeerId::new([0xab; 32]);
    let display = id.to_hex();
    assert!(display.contains("abab"));
}

#[test]
fn test_peer_info() {
    let id = PeerId::new([1u8; 32]);
    let info = PeerInfo::new(id, "127.0.0.1:8080".to_string());

    assert_eq!(info.id, id);
    assert_eq!(info.version, 1);
}

#[test]
fn test_network_creation() {
    let config = NetworkConfig::new("127.0.0.1:8080".to_string(), [1u8; 32]);
    let network = Network::new(config);

    assert_eq!(network.peer_count(), 0);
    assert!(network.can_accept_peer());
}

#[test]
fn test_peer_management() {
    let config = NetworkConfig::new("127.0.0.1:8080".to_string(), [1u8; 32]).with_max_peers(2);
    let mut network = Network::new(config);

    let peer1 = PeerInfo::new(PeerId::new([2u8; 32]), "127.0.0.1:8081".to_string());
    let peer2 = PeerInfo::new(PeerId::new([3u8; 32]), "127.0.0.1:8082".to_string());
    let peer3 = PeerInfo::new(PeerId::new([4u8; 32]), "127.0.0.1:8083".to_string());

    assert!(network.add_peer(peer1).is_ok());
    assert!(network.add_peer(peer2).is_ok());
    assert!(network.add_peer(peer3).is_err()); // Max reached
}

#[test]
fn test_deduplication() {
    let config = NetworkConfig::new("127.0.0.1:8080".to_string(), [1u8; 32]);
    let mut network = Network::new(config);

    let hash = [42u8; 32];

    assert!(!network.is_duplicate(&hash));
    assert!(network.is_duplicate(&hash));
}

#[test]
fn test_message_forwarding() {
    let config = NetworkConfig::new("127.0.0.1:8080".to_string(), [1u8; 32]);
    let network = Network::new(config);

    let from = PeerId::new([2u8; 32]);
    let msg = NetworkMessage::Ping(42);

    let event = network.handle_message(from, msg);
    match event {
        NetworkEvent::MessageReceived { from: f, message } => {
            assert_eq!(f, [2u8; 32]);
            match message {
                NetworkMessage::Ping(n) => assert_eq!(n, 42),
                _ => panic!("wrong message type"),
            }
        },
        _ => panic!("wrong event type"),
    }
}

#[test]
fn test_builder_pattern() {
    let config = NetworkConfig::new("127.0.0.1:8080".to_string(), [1u8; 32])
        .with_chain_id([2u8; 32])
        .with_max_peers(100);

    assert_eq!(config.chain_id, [2u8; 32]);
    assert_eq!(config.max_peers, 100);
}

#[test]
fn peer_lookup_and_removal() {
    let config = NetworkConfig::new("127.0.0.1:8080".to_string(), [1u8; 32]);
    let mut network = Network::new(config);

    let id = PeerId::new([2u8; 32]);
    network.add_peer(PeerInfo::new(id, "127.0.0.1:8081".to_string())).unwrap();
    assert!(network.get_peer(&id).is_some());
    assert_eq!(network.peer_ids(), vec![id]);

    let removed = network.remove_peer(&id).unwrap();
    assert_eq!(removed.id, id);
    assert!(network.get_peer(&id).is_none());
}
