[package]
name = "tx_submission"
version = "0.1.0"
edition = "2021"
publish = false

[dependencies]
anyhow = "1"
axum = "0.8"
base64 = "0.22"
bincode = "1.3"
bs58 = "0.5"
cached = { version = "0.54", features = ["async"] }
clap = { version = "4", features = ["derive"] }
dotenv = "0.15"
env_logger = "0.11"
futures = "0.3"
reqwest = { version = "0.11", default-features = false, features = ["json", "rustls-tls"] }
serde = { version = "1", features = ["derive"] }
serde_json = "1"
sha2 = "0.10"
shellexpand = "3"
solana-program = "~2.1"
solana-sdk = "~2.1"
tokio = { version = "1", features = ["full"] }
