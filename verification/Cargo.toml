[package]
name = "libro"
version = "0.1.0"
edition = "2021"
publish = false

[dependencies]
sha2 = "0.10"
chrono = "0.4"
uuid = { version = "1", features = ["v4"] }
ed25519-dalek = { version = "2", features = ["rand_core"] }
rand_core = { version = "0.6", features = ["getrandom"] }
zeroize = "1"
serde = { version = "1", features = ["derive"] }
serde_json = "1"
thiserror = "1"
fs2 = "0.4"
rusqlite = { version = "*", features = ["bundled"] }
tokio = { version = "1", features = ["sync", "rt", "macros"] }
majra = "*"
