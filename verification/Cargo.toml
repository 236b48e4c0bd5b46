[package]
name = "tx_codec"
version = "0.1.0"
edition = "2021"
publish = false

[dependencies]
byteorder = "1"
fawkes-crypto = "*"
serde = { version = "1", features = ["derive"] }
