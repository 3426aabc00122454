[package]
name = "crowdfund"
version = "0.1.0"
edition = "2021"
publish = false

[dependencies]
cosmwasm-std = "1.5"
cw-utils = "1.0"
cw-storage-plus = "1.2"
cw721 = "0.18"
serde = { version = "1", features = ["derive"] }
