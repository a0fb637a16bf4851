[package]
name = "soulbound_market"
version = "0.1.0"
edition = "2021"
publish = false

[dependencies]
near-sdk = { version = "4.1", default-features = false }
near-contract-standards = { version = "4.1", default-features = false }
near-contract-tools = { version = "0.7", default-features = false }
