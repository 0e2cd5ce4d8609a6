[package]
name = "bls_keygen"
version = "0.1.0"
edition = "2021"
publish = false

[dependencies]

hex = "*"
anyhow = "*"
clap = { version = "*", features = ["derive"] }

[dev-dependencies]
serde_json = "*"
