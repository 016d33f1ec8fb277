[package]
name = "peermsg"
version = "0.1.0"
edition = "2021"
publish = false

[dependencies]
async-trait = "*"
serde = { version = "*", features = ["derive"] }
serde_bytes = "*"
serde_json = "*"
thiserror = "*"
