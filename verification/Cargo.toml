[package]
name = "socket_relay"
version = "0.1.0"
edition = "2021"
publish = false

[dependencies]
rustix = { version = "0.38", features = ["event", "fs", "net"] }
