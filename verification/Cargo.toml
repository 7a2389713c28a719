[package]
name = "blockchainlib"
version = "0.1.0"
edition = "2021"
publish = false

[dependencies]
crypto-hash = "*"
sha2 = "*"
hex = "*"
serde = { version = "*", features = ["derive"] }
serde_json = "*"
actix-web = "*"
actix-cors = "*"
