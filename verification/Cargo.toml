[package]
name = "emerald_legacy"
version = "0.1.0"
edition = "2021"
publish = false

[dependencies]
flate2 = "*"
lzxd = "*"
serde = { version = "*", features = ["derive"] }
serde_json = "*"
once_cell = "*"
