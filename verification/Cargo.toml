[package]
name = "erc_core"
version = "0.1.0"
edition = "2021"
publish = false

[dependencies]
anyhow = "=1.0.104"
chardetng = "=0.1.17"
csv = "=1.4.0"
encoding_rs = "0.8"
human-repr = "=1.1.0"
itertools = "=0.15.0"
regex = "=1.13.1"
serde = { version = "=1.0.229", features = ["derive"] }
serde-lexpr = "=0.1.3"
