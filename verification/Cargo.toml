[package]
name = "vote_storage"
version = "0.1.0"
edition = "2021"
publish = false

[dependencies]
arrayvec = "0.7"
solana-accounts-db = { version = "2.2", default-features = false }
solana-measure = "2.2"
solana-message = "2"
solana-pubkey = "2"
