[package]
name = "delta_kit"
version = "0.2.1"
edition = "2021"
publish = false

[dependencies]
blake3 = { version = "1", features = ["pure"] }
hashbrown = "*"
thiserror = "*"
zstd = "*"
