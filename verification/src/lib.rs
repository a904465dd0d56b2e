//! Core of a BFT blockchain node: a round-based three-phase consensus
//! engine, a deterministic transaction runtime, and the pure logic of a
//! crash-safe store (canonical codecs and file naming).
//!
//! The crate is organised by component:
//! - `crypto`: Ed25519 keypairs, signing, verification, and the transport
//!   envelope checks.
//! - `tx`, `block`, `state`, `runtime`: the deterministic runtime.
//! - `validators`, `messages`, `engine`, `config`: the consensus engine.
//! - `codec`, `store`: canonical serialization and store naming logic.
//! - `network`: message types, peer table and deduplication logic.
//! - `node`: the verified cores of the orchestrator's message pipelines.

pub mod bytes;
pub mod crypto;
pub mod validators;
pub mod messages;
pub mod state;
pub mod tx;
pub mod clock;
pub mod block;
pub mod runtime;
pub mod config;
pub mod engine;
pub mod codec;
pub mod network;
pub mod node;
pub mod store;
