[package]
name = "rdp_session"
version = "0.1.0"
edition = "2021"
publish = false

[dependencies]
bytes = "1"
qoi = "0.4"
tracing = "0.1"
yuv = { version = "0.8", features = ["rdp"] }
zstd-safe = { version = "7.2", features = ["std"] }
