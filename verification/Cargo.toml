[package]
name = "chain_store"
version = "0.1.0"
edition = "2021"
publish = false

[dependencies]
bincode = "1.3"
ring = "0.16"
serde = { version = "1", features = ["derive"] }

[dev-dependencies]
rand = "0.8"
