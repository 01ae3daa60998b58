[package]
name = "near_light_client"
version = "0.1.0"
edition = "2021"
publish = false

[dependencies]
bs58 = "0.4"
byteorder = "1"
ed25519-dalek = "1"
hex = "0.4"
sha256 = { version = "1", default-features = false }
borsh = { version = "1", features = ["derive"] }
abscissa_core = "*"
abscissa_tokio = "*"
anyhow = "1"
base64 = "*"
chrono = "0.4"
clap = { version = "4", features = ["derive"] }
near-crypto = "*"
near-jsonrpc-client = "*"
near-jsonrpc-primitives = "*"
near-primitives = "*"
serde = { version = "1", features = ["derive"] }
tokio = { version = "1", features = ["full"] }
tokio-retry = "0.3"
tracing = "0.1"
