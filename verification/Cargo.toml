[package]
name = "dspfs"
version = "0.1.0"
edition = "2021"
publish = false

[dependencies]
blake3 = "*"
ring = "*"
uuid = { version = "*", features = ["v4"] }
tokio = { version = "*", features = ["net", "rt", "rt-multi-thread", "io-util", "fs", "sync", "macros", "time"] }
dirs = "*"
