[package]
name = "log_streamer"
version = "0.1.0"
edition = "2021"
publish = false

[dependencies]
anyhow = "1"
chrono = "0.4"
execution-time = "*"
jsonxf = "1"
nonblock = "0.2"
realpath = "*"
regex = "1"
serde_json = "1"
which = "*"
