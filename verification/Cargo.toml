[package]
name = "manifestation_core"
version = "0.1.0"
edition = "2021"
publish = false

[dependencies]
base64 = "0.22"
cid = "0.11"
ed25519-dalek = { version = "2", features = ["rand_core"] }
libp2p = { version = "0.54", features = ["tokio", "tcp", "noise", "yamux", "gossipsub", "kad", "mdns", "identify", "ping", "macros"] }
lru = "0.12"
multihash = "0.19"
rand_core = { version = "0.6", features = ["getrandom"] }
serde = { version = "1", features = ["derive"] }
serde_json = "1"
sha2 = "0.10"
tokio = { version = "1", features = ["full"] }
