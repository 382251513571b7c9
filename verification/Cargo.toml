[package]
name = "malachite"
version = "0.1.0"
edition = "2021"
publish = false

[dependencies]
rand = "=0.8.8"
sha2 = "=0.10.9"
subtle-encoding = "=0.5.1"
ed25519-consensus = "2"
serde = { version = "1", features = ["derive"] }
thiserror = "*"
multiaddr = "*"
