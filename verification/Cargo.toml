[package]
name = "bftcore"
version = "0.1.0"
edition = "2021"
publish = false

[dependencies]
ed25519-dalek = { version = "2", features = ["rand_core"] }
rand = "0.8"
hex = "0.4"
serde = { version = "1", features = ["derive"] }
serde_json = "1"
bincode = "1"
thiserror = "1"
toml = "0.8"
tokio = { version = "1", features = ["macros", "rt-multi-thread", "sync", "time", "signal"] }
futures = "0.3"
libp2p = { version = "0.53", default-features = false, features = ["gossipsub", "mdns", "noise", "tcp", "yamux", "identify", "tokio", "macros"] }
