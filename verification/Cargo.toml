[package]
name = "aband"
version = "0.1.0"
edition = "2021"
publish = false

[dependencies]
parity-scale-codec = "=3.7.5"
rand = "=0.8.8"
serde = { version = "=1.0.229", features = ["derive"] }
sp-core = "*"
