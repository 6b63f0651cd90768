[package]
name = "connection_protocol"
version = "0.1.0"
edition = "2021"
publish = false

[dependencies]
sha2 = "0.10"
tokio = { version = "1", features = ["net", "io-util", "rt-multi-thread", "macros", "time"] }
