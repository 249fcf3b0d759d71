[package]
name = "n2p"
version = "0.1.0"
edition = "2021"
publish = false

[dependencies]
anyhow = "1"
crossterm = { version = "0.27", features = ["event-stream"] }
futures = "0.3"
libp2p = { version = "0.53", features = ["ed25519", "gossipsub", "macros", "mdns", "noise", "quic", "tcp", "tokio", "yamux"] }
ratatui = "0.27"
sha3 = "0.10"
time = "0.3"
tokio = { version = "1", features = ["macros", "rt-multi-thread"] }
tui-textarea = "0.5"

[dev-dependencies]
bincode = "1.3"
fake = { version = "2.9", features = ["time"] }
rand = "0.8"
serde = "1"
time = { version = "0.3", features = ["serde"] }
