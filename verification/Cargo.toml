[package]
name = "routing"
version = "0.1.0"
edition = "2021"
publish = false

[dependencies]
lru_time_cache = "*"
message_filter = "*"
rand = "0.8"
sodiumoxide = "*"
cbor = "*"
rustc-serialize = "*"
bchannel = "*"
