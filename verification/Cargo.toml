[package]
name = "mobilecoind"
version = "0.1.0"
edition = "2021"
publish = false

[dependencies]
crossbeam-channel = "=0.5.17"
failure = "=0.1.8"
lmdb = "=0.8.0"
prost = { version = "=0.6.1", default-features = false }
retry = { version = "=1.3.1", default-features = false }
