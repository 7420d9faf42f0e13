[package]
name = "sv2_wire"
version = "0.1.0"
edition = "2021"
publish = false

[dependencies]
const_sv2 = "=4.0.1"
serde = { version = "=1.0.229", features = ["derive"] }
serde_json = "=1.0.151"
serde_repr = "=0.1.21"
hex = "=0.4.3"
bitcoin_hashes = "=0.12.0"
