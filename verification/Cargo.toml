[package]
name = "offchain_queue"
version = "0.1.0"
edition = "2021"
publish = false

[dependencies]
parity-scale-codec = { version = "=3.7.5", features = ["derive"] }
frame-support = "=49.0.0"
frame-system = "=49.0.0"
sp-io = "=49.0.0"
sp-runtime = "=49.0.0"
sp-std = "=14.0.0"
scale-info = { version = "=2.11.6", features = ["derive"] }
log = "=0.4.34"
