[package]
name = "mcproto"
version = "0.1.0"
edition = "2021"
publish = false

[dependencies]
fastnbt = "2"
log = "0.4"
serde = { version = "1", features = ["derive"] }
serde_json = "1"
simple_logger = "*"
