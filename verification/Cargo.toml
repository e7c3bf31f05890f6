[package]
name = "der"
version = "0.1.0"
edition = "2021"
publish = false

[dependencies]
base16ct = "*"
serde = { version = "1", features = ["derive"] }
time = "0.3"
zeroize = "1"
