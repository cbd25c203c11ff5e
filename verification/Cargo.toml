[package]
name = "marciemoo"
version = "0.1.0"
edition = "2021"
publish = false

[dependencies]
sled = "0.34"
rhai = "1"
tokio = { version = "1", features = ["net", "io-util", "rt-multi-thread", "sync", "signal", "macros"] }
tokio-util = "0.7"

[dev-dependencies]
serde_json = "1"
