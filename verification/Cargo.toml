[package]
name = "cadence"
version = "0.1.0"
edition = "2021"
publish = false

[dependencies]
core_affinity = "0.8"
crossbeam-channel = "0.5"
hdrhistogram = "7"
io-uring = "0.6"
libc = "0.2"
quanta = "0.12"
serde = { version = "1", features = ["derive"] }
serde_json = "1"
