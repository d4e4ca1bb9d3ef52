[package]
name = "bittorrent_starter_rust"
version = "0.2.0"
edition = "2021"
publish = false

[dependencies]
clap = { version = "4", features = ["derive"] }
hex = "0.4"
rand = "0.8"
reqwest = "0.12"
serde = { version = "1", features = ["derive"] }
serde_bencode = "0.2"
serde_json = "1"
sha1 = "0.10"
tokio = { version = "1", features = ["full"] }
url = "2"
