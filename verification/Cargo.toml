[package]
name = "nomen"
version = "0.1.0"
edition = "2021"
publish = false

[dependencies]
anyhow = "*"
axum = "*"
bitcoin = "*"
bitcoincore-rpc = "*"
clap = { version = "*", features = ["derive"] }
hex = "*"
log = "*"
nostr-sdk = "*"
serde = { version = "*", features = ["derive"] }
serde_json = "*"
tokio = { version = "*", features = ["rt-multi-thread", "macros", "net", "time"] }
toml = "*"
