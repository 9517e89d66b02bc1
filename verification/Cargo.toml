[package]
name = "staking"
version = "0.1.0"
edition = "2021"
publish = false

[dependencies]
sha2 = "0.10"
tendermint = "0.29"
metrics = "0.20"
tracing = "0.1"
hex = "0.4"
anyhow = "1"
