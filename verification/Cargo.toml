[package]
name = "rust_engan"
version = "0.1.0"
edition = "2021"

[dependencies]
anyhow = "*"
rand = "*"
serde = { version = "*", features = ["derive"] }
serde_json = "*"
