[package]
name = "offchain_requests"
version = "0.1.0"
edition = "2021"
publish = false

[dependencies]
rand = "0.8"
parity-scale-codec = "3"
sp-core = "*"
sp-runtime = "*"
sp-io = "*"
serde = { version = "1", features = ["derive"] }
parking_lot = "0.12"
