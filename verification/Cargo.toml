[package]
name = "ethers-etherscan"
version = "0.1.0"
edition = "2021"
publish = false

[dependencies]
ethers-core = "2"
serde = { version = "1", features = ["derive"] }
serde_json = "1"
