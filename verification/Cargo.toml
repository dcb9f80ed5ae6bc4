[package]
name = "cbt"
version = "0.1.0"
edition = "2021"
publish = false

[dependencies]
percent-encoding = "2"
sha1 = "0.10"
thiserror = "1"
reqwest = { version = "0.11", default-features = false }
tokio = { version = "1", features = ["net", "io-util", "rt"] }
