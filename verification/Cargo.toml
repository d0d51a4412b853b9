[package]
name = "solana_token_cli"
version = "0.1.0"
edition = "2021"
publish = false

[dependencies]
sha2 = "0.10"
curve25519-dalek = "4"
clap = { version = "4", features = ["derive"] }
shellexpand = "3"
