[package]
name = "metaboss"
version = "0.1.0"
edition = "2021"
publish = false

[dependencies]
anyhow = "*"
serde = { version = "*", features = ["derive"] }
serde_json = "*"
solana-sdk = "2"
mpl-token-metadata = "*"
spl-token = "*"
spl-associated-token-account = "*"
