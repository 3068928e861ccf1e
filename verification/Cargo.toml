[package]
name = "lord_codec"
version = "0.1.0"
edition = "2021"
publish = false

[dependencies]
ringbuf = "*"
serde = { version = "*", features = ["derive"] }
serialport = { version = "*", default-features = false }
