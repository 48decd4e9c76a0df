[package]
name = "rust-torrent"
version = "0.1.0"
edition = "2021"
publish = false

[dependencies]
byteorder = "1"
crossbeam-channel = "0.5"
hex = "0.4"
rand = "0.8"
reqwest = { version = "0.11", features = ["blocking"] }
rust-crypto = "0.2"
serde = { version = "1", features = ["derive"] }
serde_bencode = "0.2"
serde_bytes = "0.11"
serde_derive = "1"
url = "2"
