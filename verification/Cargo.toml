[package]
name = "solana_wallet"
version = "0.1.0"
edition = "2021"
publish = false

[dependencies]
tiny-bip39 = "*"
solana-sdk = "2"
rusqlite = { version = "*", features = ["bundled"] }
keyring = "*"
serde = { version = "*", features = ["derive"] }
thiserror = "*"
