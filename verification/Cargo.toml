[package]
name = "crowdfund"
version = "0.1.0"
edition = "2021"
publish = false

[dependencies]
andromeda-non-fungible-tokens = "=1.0.0"
andromeda-std = { version = "=1.0.0", features = ["modules"] }
cosmwasm-std = "=1.5.11"
cw-storage-plus = "=1.2.0"
cw-utils = "=1.0.3"
cw721 = "=0.18.0"
schemars = "=0.8.22"
serde = { version = "=1.0.229", features = ["derive"] }
