[package]
name = "ledger"
version = "0.1.0"
edition = "2021"
publish = false

[dependencies]
actix = "*"
anyhow = "*"
log = "*"
pretty_env_logger = "*"
tokio = { version = "*", features = ["fs", "io-std", "io-util", "rt-multi-thread", "macros"] }
