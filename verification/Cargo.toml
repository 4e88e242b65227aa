[package]
name = "vapor_archive"
version = "0.1.0"
edition = "2021"
publish = false

[dependencies]
blake2 = "0.8"
chrono = { version = "0.4", default-features = false, features = ["clock"] }
zstd = "0.13"

[dev-dependencies]
bincode = "1.3"
