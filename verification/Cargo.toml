[package]
name = "mistralrs_leech"
version = "0.1.0"
edition = "2021"
publish = false

[dependencies]
byteorder = "1"
candle-core = { version = "0.9", default-features = false }
crc32fast = "1"
half = "2"
memmap2 = "0.9"
serde = { version = "1", features = ["derive"] }
serde_json = "1"
thiserror = "2"
