[package]
name = "wynd-lsd"
version = "0.1.0"
edition = "2021"
publish = false

[dependencies]
cosmwasm-std = { version = "=3.0.11", features = ["staking", "cosmwasm_2_2"] }
cosmwasm-schema = "=3.0.11"
cw-storage-plus = "=3.0.1"
cw2 = "=3.0.0"
cw-utils = "=3.0.0"
semver = "=1.0.28"
thiserror = "=2.0.21"
