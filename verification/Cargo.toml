[package]
name = "txnode"
version = "0.1.0"
edition = "2021"
publish = false

[dependencies]
rand = "*"
libp2p = { version = "*", default-features = false, features = ["tokio", "gossipsub", "mdns", "kad", "quic", "macros", "ed25519"] }
tokio = { version = "*", default-features = false, features = ["rt-multi-thread", "macros", "io-std", "io-util"] }

[dev-dependencies]
bincode = "1"
