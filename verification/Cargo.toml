[package]
name = "blockchain_node"
version = "0.1.0"
edition = "2021"
publish = false

[dependencies]
actix-web = "4"
bs58 = "0.5"
hex = "0.4"
p256 = { version = "0.13", features = ["ecdsa"] }
ripemd160 = "0.9"
serde = { version = "1", features = ["derive"] }
serde_json = "1"
sha2 = "0.10"
