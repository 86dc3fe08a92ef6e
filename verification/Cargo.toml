[package]
name = "cbor_next"
version = "0.1.0"
edition = "2021"
publish = false

[dependencies]
half = "2"
indexmap = "2"
serde = "1"

[dev-dependencies]
hex = "0.4"
rand = "0.9"
