//! Network-facing data: the wire message types, peer identity and peer
//! table, and gossip deduplication. The transport itself lives outside the
//! library; these types and rules are what the core contracts.

use vstd::prelude::*;
use crate::bytes::bytes32_eq;
use crate::clock::{now_seconds, now_subsec_nanos};
use crate::validators::{hex_byte, hex_char};

verus! {

/// Errors of the networking layer.
#[derive(Clone, Debug)]
pub enum NetworkError {
    /// Failed to bind to an address.
    BindFailed(String),
    /// Peer connection failed.
    ConnectionFailed(String),
    /// Message send failed.
    SendFailed,
    /// Channel closed.
    ChannelClosed,
    /// Invalid message format.
    InvalidMessage,
    /// Peer not found.
    PeerNotFound(String),
    /// Maximum peers reached.
    MaxPeersReached,
    /// Configuration error.
    ConfigError(String),
    /// Transport error.
    TransportError(String),
    /// Behaviour error.
    BehaviourError(String),
    /// Subscription error.
    SubscriptionError(String),
    /// Invalid address.
    InvalidAddress(String),
    /// Listen error.
    ListenError(String),
    /// Dial error.
    DialError(String),
    /// Serialization error.
    SerializationError(String),
    /// Deserialization error.
    DeserializationError(String),
    /// Publish error.
    PublishError(String),
}

/// Transaction propagation message.
pub struct TransactionMessage {
    /// Raw transaction bytes (includes signature).
    pub payload: Vec<u8>,
    /// Timestamp when first seen.
    pub timestamp: u64,
}

impl TransactionMessage {
    /// Create a new transaction message, stamped with the current time.
    pub fn new(payload: Vec<u8>) -> (r: Self)
        ensures
            r.payload@ == payload@,
    {
        let timestamp = now_seconds();
        TransactionMessage { payload, timestamp }
    }
}

/// Block propagation message.
pub struct BlockMessage {
    /// Raw block bytes (includes signature).
    pub payload: Vec<u8>,
    /// Block height.
    pub height: u64,
}

impl BlockMessage {
    /// Create a new block message.
    pub fn new(payload: Vec<u8>, height: u64) -> (r: Self)
        ensures
            r.payload@ == payload@,
            r.height == height,
    {
        BlockMessage { payload, height }
    }
}

/// Peer handshake message.
pub struct HandshakeMessage {
    /// Protocol version.
    pub version: u32,
    /// Chain ID.
    pub chain_id: [u8; 32],
    /// Current block height.
    pub height: u64,
    /// Node's public identity.
    pub node_id: [u8; 32],
}

impl HandshakeMessage {
    /// Create a new handshake message at protocol version 1.
    pub fn new(chain_id: [u8; 32], height: u64, node_id: [u8; 32]) -> (r: Self)
        ensures
            r.version == 1,
            r.chain_id == chain_id,
            r.height == height,
            r.node_id == node_id,
    {
        HandshakeMessage { version: 1, chain_id, height, node_id }
    }
}

/// Messages that can be sent and received over the network.
pub enum NetworkMessage {
    /// A transaction to be propagated.
    Transaction(TransactionMessage),
    /// A block to be propagated.
    Block(BlockMessage),
    /// Peer handshake.
    Handshake(HandshakeMessage),
    /// Ping for liveness.
    Ping(u64),
    /// Pong response.
    Pong(u64),
}

/// Internal event of the network service.
pub enum NetworkEvent {
    /// Received a message from a peer.
    MessageReceived { from: [u8; 32], message: NetworkMessage },
    /// New peer connected.
    PeerConnected { peer_id: [u8; 32] },
    /// Peer disconnected.
    PeerDisconnected { peer_id: [u8; 32] },
}

/// Unique identifier for a peer.
#[derive(Clone, Copy, Debug, Eq, Hash)]
pub struct PeerId(pub [u8; 32]);

impl PartialEq for PeerId {
    fn eq(&self, other: &PeerId) -> (r: bool) {
        let r = bytes32_eq(&self.0, &other.0);
        proof {
            if self.0@ == other.0@ {
                assert(self.0 == other.0);
            }
        }
        r
    }
}

impl vstd::std_specs::cmp::PartialEqSpecImpl for PeerId {
    open spec fn obeys_eq_spec() -> bool {
        true
    }

    open spec fn eq_spec(&self, other: &PeerId) -> bool {
        self.0 == other.0
    }
}

/// A byte drawn from the clock's sub-second nanoseconds; not a secure
/// random source, only a tie-breaker for testing.
pub fn random() -> (r: u8) {
    let nanos = now_subsec_nanos();
    (nanos % 256) as u8
}

impl PeerId {
    /// Create a new peer ID from bytes.
    pub fn new(bytes: [u8; 32]) -> (r: Self)
        ensures
            r.0 == bytes,
    {
        PeerId(bytes)
    }

    /// Generate a clock-derived peer ID, for testing.
    pub fn random() -> Self {
        let mut bytes = [0u8; 32];
        let mut i: usize = 0;
        while i < 32
            decreases 32 - i,
        {
            vstd::array::ArrayAdditionalExecFns::set(&mut bytes, i, random());
            i += 1;
        }
        PeerId(bytes)
    }

    /// Get the bytes of this peer ID.
    pub fn as_bytes(&self) -> (r: &[u8; 32])
        ensures
            r == self.0,
    {
        &self.0
    }

    /// A short display form: the first two and last two bytes in hex,
    /// joined by "..".
    pub fn to_hex(&self) -> (r: String)
        ensures
            r@ == seq![
                hex_char(self.0@[0] / 16),
                hex_char(self.0@[0] % 16),
                hex_char(self.0@[1] / 16),
                hex_char(self.0@[1] % 16),
                '.',
                '.',
                hex_char(self.0@[30] / 16),
                hex_char(self.0@[30] % 16),
                hex_char(self.0@[31] / 16),
                hex_char(self.0@[31] % 16),
            ],
    {
        let mut s = String::new();
        s.append(hex_byte(self.0[0]).as_str());
        s.append(hex_byte(self.0[1]).as_str());
        s.append("..");
        s.append(hex_byte(self.0[30]).as_str());
        s.append(hex_byte(self.0[31]).as_str());
        proof {
            reveal_strlit("..");
            assert(s@ =~= seq![
                hex_char(self.0@[0] / 16),
                hex_char(self.0@[0] % 16),
                hex_char(self.0@[1] / 16),
                hex_char(self.0@[1] % 16),
                '.',
                '.',
                hex_char(self.0@[30] / 16),
                hex_char(self.0@[30] % 16),
                hex_char(self.0@[31] / 16),
                hex_char(self.0@[31] % 16),
            ]);
        }
        s
    }
}

/// Information about a connected peer.
#[derive(Clone, Debug)]
pub struct PeerInfo {
    /// Peer's unique identifier.
    pub id: PeerId,
    /// Peer's network address, as text.
    pub addr: String,
    /// Peer's current block height.
    pub height: u64,
    /// Protocol version.
    pub version: u32,
    /// Connection timestamp.
    pub connected_at: u64,
}

impl PeerInfo {
    /// Create new peer info at height 0, version 1, stamped with the
    /// current time.
    pub fn new(id: PeerId, addr: String) -> (r: Self)
        ensures
            r.id == id,
            r.addr@ == addr@,
            r.height == 0,
            r.version == 1,
    {
        let connected_at = now_seconds();
        PeerInfo { id, addr, height: 0, version: 1, connected_at }
    }

    /// Update the peer's height.
    pub fn update_height(&mut self, height: u64)
        ensures
            final(self).height == height,
            final(self).id == old(self).id,
            final(self).addr@ == old(self).addr@,
            final(self).version == old(self).version,
            final(self).connected_at == old(self).connected_at,
    {
        self.height = height;
    }
}

/// Configuration for the network layer.
#[derive(Clone, Debug)]
pub struct NetworkConfig {
    /// Address to listen on, as text.
    pub listen_addr: String,
    /// Maximum number of peers.
    pub max_peers: usize,
    /// Enable peer discovery.
    pub enable_discovery: bool,
    /// Chain ID for network isolation.
    pub chain_id: [u8; 32],
    /// Node identity (public key).
    pub node_id: [u8; 32],
    /// Bootstrap peers to connect to, as text addresses.
    pub bootstrap_peers: Vec<String>,
}

impl NetworkConfig {
    /// Create a new config with default limits.
    pub fn new(listen_addr: String, node_id: [u8; 32]) -> (r: Self)
        ensures
            r.listen_addr@ == listen_addr@,
            r.max_peers == 50,
            r.enable_discovery,
            r.chain_id@ == Seq::new(32, |i: int| 0u8),
            r.node_id == node_id,
            r.bootstrap_peers@ == Seq::<String>::empty(),
    {
        let chain_id = [0u8; 32];
        proof {
            assert(chain_id@ =~= Seq::new(32, |i: int| 0u8));
        }
        NetworkConfig {
            listen_addr,
            max_peers: 50,
            enable_discovery: true,
            chain_id,
            node_id,
            bootstrap_peers: Vec::new(),
        }
    }

    /// Set the chain ID.
    pub fn with_chain_id(self, chain_id: [u8; 32]) -> (r: Self)
        ensures
            r == (NetworkConfig { chain_id, ..self }),
    {
        NetworkConfig { chain_id, ..self }
    }

    /// Set the maximum number of peers.
    pub fn with_max_peers(self, max: usize) -> (r: Self)
        ensures
            r == (NetworkConfig { max_peers: max, ..self }),
    {
        NetworkConfig { max_peers: max, ..self }
    }

    /// Set the bootstrap peers.
    pub fn with_bootstrap_peers(self, peers: Vec<String>) -> (r: Self)
        ensures
            r == (NetworkConfig { bootstrap_peers: peers, ..self }),
    {
        NetworkConfig { bootstrap_peers: peers, ..self }
    }
}

/// Whether a peer table holds an entry with the given id.
pub open spec fn has_peer(peers: Seq<PeerInfo>, id: PeerId) -> bool {
    exists|i: int| 0 <= i < peers.len() && peers[i].id == id
}

/// Whether a seen-set holds a hash.
pub open spec fn has_seen(seen: Seq<[u8; 32]>, hash: [u8; 32]) -> bool {
    exists|i: int| 0 <= i < seen.len() && seen[i] == hash
}

/// The peer table and gossip deduplication of the network service. The
/// transport that carries bytes lives outside the library; handlers here
/// return the events the transport loop forwards.
pub struct Network {
    /// Configuration.
    pub config: NetworkConfig,
    /// Our peer ID.
    pub local_id: PeerId,
    /// Connected peers.
    pub peers: Vec<PeerInfo>,
    /// Recently seen message hashes, for deduplication.
    pub seen_messages: Vec<[u8; 32]>,
}

impl Network {
    /// Well-formedness: peer ids are pairwise distinct.
    pub open spec fn wf(&self) -> bool {
        forall|i: int, j: int|
            0 <= i < j < self.peers@.len() ==> self.peers@[i].id != self.peers@[j].id
    }

    /// Create a new network service around a configuration.
    pub fn new(config: NetworkConfig) -> (r: Self)
        ensures
            r.local_id.0 == config.node_id,
            r.peers@ == Seq::<PeerInfo>::empty(),
            r.seen_messages@ == Seq::<[u8; 32]>::empty(),
            r.config == config,
            r.wf(),
    {
        let local_id = PeerId(config.node_id);
        Network { config, local_id, peers: Vec::new(), seen_messages: Vec::new() }
    }

    /// Our local peer ID.
    pub fn local_id(&self) -> (r: PeerId)
        ensures
            r == self.local_id,
    {
        self.local_id
    }

    /// The number of connected peers.
    pub fn peer_count(&self) -> (r: usize)
        ensures
            r == self.peers@.len(),
    {
        self.peers.len()
    }

    /// Whether we can accept more peers.
    pub fn can_accept_peer(&self) -> (r: bool)
        ensures
            r <==> self.peers@.len() < self.config.max_peers,
    {
        self.peers.len() < self.config.max_peers
    }

    /// Add a peer connection; fails when the peer limit is reached. A peer
    /// with a known id replaces the old entry.
    pub fn add_peer(&mut self, info: PeerInfo) -> (r: Result<(), NetworkError>)
        requires
            old(self).wf(),
        ensures
            final(self).wf(),
            r is Ok <==> old(self).peers@.len() < old(self).config.max_peers,
            r is Err ==> *final(self) == *old(self) && r == Err::<(), NetworkError>(
                NetworkError::MaxPeersReached,
            ),
            r is Ok ==> has_peer(final(self).peers@, info.id) && final(self).config == old(
                self,
            ).config && final(self).local_id == old(self).local_id && final(self).seen_messages
                == old(self).seen_messages,
    {
        if !(self.peers.len() < self.config.max_peers) {
            return Err(NetworkError::MaxPeersReached);
        }
        match self.find_peer(&info.id) {
            Some(i) => {
                self.peers.remove(i);
            },
            None => {},
        }
        let ghost mid = info.id;
        self.peers.push(info);
        proof {
            assert(self.peers@[self.peers@.len() - 1].id == mid);
        }
        Ok(())
    }

    /// The index of a peer in the table.
    fn find_peer(&self, id: &PeerId) -> (r: Option<usize>)
        ensures
            r is Some <==> has_peer(self.peers@, *id),
            r matches Some(i) ==> i < self.peers@.len() && self.peers@[i as int].id == *id,
    {
        let n = self.peers.len();
        let mut i: usize = 0;
        while i < n
            invariant
                0 <= i <= n,
                n == self.peers@.len(),
                forall|k: int| 0 <= k < i ==> self.peers@[k].id != *id,
            decreases n - i,
        {
            if bytes32_eq(&self.peers[i].id.0, &id.0) {
                proof {
                    crate::bytes::lemma_bytes32_ext(self.peers@[i as int].id.0, id.0);
                }
                return Some(i);
            }
            i += 1;
        }
        None
    }

    /// Remove a peer connection, returning its entry if it was connected.
    pub fn remove_peer(&mut self, peer_id: &PeerId) -> (r: Option<PeerInfo>)
        requires
            old(self).wf(),
        ensures
            final(self).wf(),
            r is Some <==> has_peer(old(self).peers@, *peer_id),
            r matches Some(info) ==> info.id == *peer_id,
            !has_peer(final(self).peers@, *peer_id),
            final(self).config == old(self).config,
            final(self).local_id == old(self).local_id,
            final(self).seen_messages == old(self).seen_messages,
    {
        match self.find_peer(peer_id) {
            Some(i) => {
                let info = self.peers.remove(i);
                proof {
                    assert forall|k: int|
                        0 <= k < self.peers@.len() implies self.peers@[k].id != *peer_id by {
                        if k < i {
                            assert(self.peers@[k] == old(self).peers@[k]);
                        } else {
                            assert(self.peers@[k] == old(self).peers@[k + 1]);
                        }
                    }
                }
                Some(info)
            },
            None => None,
        }
    }

    /// Get a peer by ID.
    pub fn get_peer(&self, peer_id: &PeerId) -> (r: Option<&PeerInfo>)
        ensures
            r is Some <==> has_peer(self.peers@, *peer_id),
            r matches Some(info) ==> info.id == *peer_id,
    {
        match self.find_peer(peer_id) {
            Some(i) => Some(&self.peers[i]),
            None => None,
        }
    }

    /// All connected peer IDs, in table order.
    pub fn peer_ids(&self) -> (r: Vec<PeerId>)
        ensures
            r@.len() == self.peers@.len(),
            forall|i: int| 0 <= i < r@.len() ==> r@[i] == self.peers@[i].id,
    {
        let n = self.peers.len();
        let mut out: Vec<PeerId> = Vec::new();
        let mut i: usize = 0;
        while i < n
            invariant
                0 <= i <= n,
                n == self.peers@.len(),
                out@.len() == i,
                forall|k: int| 0 <= k < i ==> out@[k] == self.peers@[k].id,
            decreases n - i,
        {
            out.push(self.peers[i].id);
            i += 1;
        }
        out
    }

    /// Whether a message hash has been seen before; a new hash is recorded.
    /// Deduplication is exact up to the bounded size of the seen set: when
    /// it exceeds its bound, the older half is dropped.
    pub fn is_duplicate(&mut self, hash: &[u8; 32]) -> (r: bool)
        ensures
            r <==> has_seen(old(self).seen_messages@, *hash),
            has_seen(final(self).seen_messages@, *hash),
            final(self).peers == old(self).peers,
            final(self).config == old(self).config,
            final(self).local_id == old(self).local_id,
    {
        let n = self.seen_messages.len();
        let mut i: usize = 0;
        while i < n
            invariant
                0 <= i <= n,
                n == self.seen_messages@.len(),
                forall|k: int| 0 <= k < i ==> self.seen_messages@[k] != *hash,
            decreases n - i,
        {
            if bytes32_eq(&self.seen_messages[i], hash) {
                proof {
                    crate::bytes::lemma_bytes32_ext(self.seen_messages@[i as int], *hash);
                }
                return true;
            }
            i += 1;
        }
        if self.seen_messages.len() >= 10000 {
            let keep = self.seen_messages.split_off(5000);
            self.seen_messages = keep;
        }
        self.seen_messages.push(*hash);
        proof {
            assert(self.seen_messages@[self.seen_messages@.len() - 1] == *hash);
        }
        false
    }

    /// Build the event for an incoming message; the transport loop
    /// forwards it.
    pub fn handle_message(&self, from: PeerId, message: NetworkMessage) -> (r: NetworkEvent)
        ensures
            r matches NetworkEvent::MessageReceived { from: f, message: m } && f == from.0,
    {
        NetworkEvent::MessageReceived { from: from.0, message }
    }

    /// Build the event for a new peer connection.
    pub fn notify_peer_connected(&self, peer_id: PeerId) -> (r: NetworkEvent)
        ensures
            r == (NetworkEvent::PeerConnected { peer_id: peer_id.0 }),
    {
        NetworkEvent::PeerConnected { peer_id: peer_id.0 }
    }

    /// Build the event for a peer disconnection.
    pub fn notify_peer_disconnected(&self, peer_id: PeerId) -> (r: NetworkEvent)
        ensures
            r == (NetworkEvent::PeerDisconnected { peer_id: peer_id.0 }),
    {
        NetworkEvent::PeerDisconnected { peer_id: peer_id.0 }
    }
}

} // verus!
