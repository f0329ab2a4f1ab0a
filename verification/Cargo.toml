[package]
name = "pins_prover"
version = "0.1.0"
edition = "2021"
publish = false

[dependencies]
sha2 = "0.10"
ed25519-dalek = "2"
bech32 = "0.9"
serde = { version = "1", features = ["derive"] }
serde_json = "1"
alloy-sol-types = "1"
hex = "0.4"
clap = { version = "4", features = ["derive"] }
anyhow = "1"
tokio = { version = "1", features = ["macros", "rt-multi-thread"] }
tracing = "0.1"
tracing-subscriber = "0.3"
tracing-appender = "0.2"
sp1-zkvm = "*"
