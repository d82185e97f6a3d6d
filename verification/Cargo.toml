[package]
name = "ord"
version = "0.1.0"
edition = "2021"
publish = false

[dependencies]
anyhow = "1.0"
bitcoin = { version = "0.29", features = ["rand", "serde"] }
bitcoincore-rpc = "0.16"
clap = { version = "3.2", features = ["derive"] }
serde = { version = "1.0", features = ["derive"] }
serde_json = "1.0"
