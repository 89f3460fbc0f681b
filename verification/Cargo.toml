[package]
name = "resonance_stream"
version = "0.1.0"
edition = "2021"
publish = false

[dependencies]
etherparse = "=0.19.0"
regex = "=1.13.1"
kakasi = "=0.1.0"
sha2 = "=0.10.9"
indexmap = "=2.14.2"
serde = { version = "=1.0.229", features = ["derive"] }
serde_json = "=1.0.154"
chrono = "=0.4.45"
reqwest = { version = "0.12", default-features = false, features = ["blocking", "json"] }
socket2 = "0.5"
local-ip-address = "0.6"
crossbeam-channel = "0.5"
