[package]
name = "podsync"
version = "0.1.0"
edition = "2021"
publish = false

[dependencies]
serde_json = "*"
quickxml_to_serde = "*"
reqwest = { version = "*", default-features = false }
tokio = { version = "*", features = ["rt", "rt-multi-thread", "macros", "fs", "io-util", "process"] }
futures = "*"
indicatif = "*"
