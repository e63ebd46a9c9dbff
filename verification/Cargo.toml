[package]
name = "folkfriend"
version = "1.0.0"
edition = "2021"
publish = false

[dependencies]
aho-corasick = "0.7"
fnv = "1"
rustfft = "6"
serde = { version = "1", features = ["derive"] }
serde_json = "1"
wav = "1"
clap = "2"
dirs = "4"
reqwest = { version = "0.11", default-features = false, features = ["blocking", "rustls-tls"] }
