//! Configuration: consensus timeouts (milliseconds) and the node's
//! configuration sections.

use vstd::prelude::*;
use vstd::string::StringExecFns;

verus! {

/// Configuration for the consensus engine. All timeouts are in
/// milliseconds.
#[derive(Clone, Debug)]
pub struct ConsensusConfig {
    /// Timeout for the proposal phase.
    pub propose_timeout: u64,
    /// Timeout for the prevote phase.
    pub prevote_timeout: u64,
    /// Timeout for the commit phase.
    pub commit_timeout: u64,
    /// Timeout increase per round, for backoff.
    pub timeout_delta: u64,
    /// Maximum rounds before giving up on a height.
    pub max_rounds: u64,
}

impl Default for ConsensusConfig {
    fn default() -> (r: Self)
        ensures
            r.propose_timeout == 3000,
            r.prevote_timeout == 2000,
            r.commit_timeout == 2000,
            r.timeout_delta == 500,
            r.max_rounds == 10,
    {
        ConsensusConfig {
            propose_timeout: 3000,
            prevote_timeout: 2000,
            commit_timeout: 2000,
            timeout_delta: 500,
            max_rounds: 10,
        }
    }
}

impl ConsensusConfig {
    /// The proposal timeout for a round: the base plus the per-round delta.
    pub fn propose_timeout_for_round(&self, round: u64) -> (r: u64)
        requires
            self.propose_timeout + self.timeout_delta * round <= u64::MAX,
        ensures
            r == self.propose_timeout + self.timeout_delta * round,
    {
        self.propose_timeout + self.timeout_delta * round
    }

    /// The prevote timeout for a round.
    pub fn prevote_timeout_for_round(&self, round: u64) -> (r: u64)
        requires
            self.prevote_timeout + self.timeout_delta * round <= u64::MAX,
        ensures
            r == self.prevote_timeout + self.timeout_delta * round,
    {
        self.prevote_timeout + self.timeout_delta * round
    }

    /// The commit timeout for a round.
    pub fn commit_timeout_for_round(&self, round: u64) -> (r: u64)
        requires
            self.commit_timeout + self.timeout_delta * round <= u64::MAX,
        ensures
            r == self.commit_timeout + self.timeout_delta * round,
    {
        self.commit_timeout + self.timeout_delta * round
    }
}

/// Node-specific configuration.
#[derive(Clone, Debug)]
pub struct NodeSection {
    /// Data directory for storage.
    pub data_dir: String,
    /// Log level (trace, debug, info, warn, error).
    pub log_level: String,
}

impl Default for NodeSection {
    fn default() -> (r: Self)
        ensures
            r.data_dir@ == "./data"@,
            r.log_level@ == "info"@,
    {
        NodeSection { data_dir: String::from_str("./data"), log_level: String::from_str("info") }
    }
}

/// Network configuration section.
#[derive(Clone, Debug)]
pub struct NetworkSection {
    /// Port to listen on.
    pub listen_port: u16,
    /// Maximum number of peers.
    pub max_peers: usize,
    /// Bootstrap peers.
    pub bootstrap_peers: Vec<String>,
    /// Enable peer discovery.
    pub enable_discovery: bool,
}

impl Default for NetworkSection {
    fn default() -> (r: Self)
        ensures
            r.listen_port == 30303,
            r.max_peers == 50,
            r.bootstrap_peers@ == Seq::<String>::empty(),
            r.enable_discovery,
    {
        NetworkSection {
            listen_port: 30303,
            max_peers: 50,
            bootstrap_peers: Vec::new(),
            enable_discovery: true,
        }
    }
}

/// Runtime configuration section.
#[derive(Clone, Debug)]
pub struct RuntimeSection {
    /// Chain ID.
    pub chain_id: String,
    /// Block producer mode.
    pub producer_enabled: bool,
    /// Producer's private key (hex encoded, 32 bytes).
    pub producer_key: Option<String>,
}

impl Default for RuntimeSection {
    fn default() -> (r: Self)
        ensures
            r.chain_id@ == "unykorn-devnet"@,
            !r.producer_enabled,
            r.producer_key is None,
    {
        RuntimeSection {
            chain_id: String::from_str("unykorn-devnet"),
            producer_enabled: false,
            producer_key: None,
        }
    }
}

/// Main node configuration.
#[derive(Clone, Debug)]
pub struct NodeConfig {
    /// Node configuration section.
    pub node: NodeSection,
    /// Network configuration section.
    pub network: NetworkSection,
    /// Runtime configuration section.
    pub runtime: RuntimeSection,
}

impl Default for NodeConfig {
    fn default() -> (r: Self)
        ensures
            r.node.data_dir@ == "./data"@,
            r.node.log_level@ == "info"@,
            r.network.listen_port == 30303,
            r.network.max_peers == 50,
            r.network.bootstrap_peers@ == Seq::<String>::empty(),
            r.network.enable_discovery,
            r.runtime.chain_id@ == "unykorn-devnet"@,
            !r.runtime.producer_enabled,
            r.runtime.producer_key is None,
    {
        NodeConfig {
            node: NodeSection::default(),
            network: NetworkSection::default(),
            runtime: RuntimeSection::default(),
        }
    }
}

impl NodeConfig {
    /// A development configuration: local data directory, debug logging,
    /// discovery off, producing enabled with an all-zero development key.
    pub fn dev() -> (r: Self)
        ensures
            r.node.data_dir@ == "./dev_data"@,
            r.node.log_level@ == "debug"@,
            r.network.listen_port == 30303,
            r.network.max_peers == 10,
            r.network.bootstrap_peers@ == Seq::<String>::empty(),
            !r.network.enable_discovery,
            r.runtime.chain_id@ == "unykorn-dev"@,
            r.runtime.producer_enabled,
            r.runtime.producer_key matches Some(k) && k@
                == "0000000000000000000000000000000000000000000000000000000000000000"@,
    {
        NodeConfig {
            node: NodeSection {
                data_dir: String::from_str("./dev_data"),
                log_level: String::from_str("debug"),
            },
            network: NetworkSection {
                listen_port: 30303,
                max_peers: 10,
                bootstrap_peers: Vec::new(),
                enable_discovery: false,
            },
            runtime: RuntimeSection {
                chain_id: String::from_str("unykorn-dev"),
                producer_enabled: true,
                producer_key: Some(
                    String::from_str(
                        "0000000000000000000000000000000000000000000000000000000000000000",
                    ),
                ),
            },
        }
    }
}

/// Configuration errors.
#[derive(Clone, Debug)]
pub enum ConfigError {
    /// Reading the configuration file failed.
    IoError(String),
    /// Parsing the configuration file failed.
    ParseError(String),
}

} // verus!
