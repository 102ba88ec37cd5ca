[package]
name = "bittorrent"
version = "0.1.0"
edition = "2021"
publish = false

[dependencies]
bendy = "0.3"
serde = { version = "1", features = ["derive"] }
serde_bencode = "0.2"
sha1 = "0.10"
urlencoding = "2"
reqwest = { version = "0.12", default-features = false, features = ["blocking"] }
