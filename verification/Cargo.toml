[package]
name = "colmap_reader"
version = "0.1.0"
edition = "2021"
publish = false

[dependencies]
glam = "=0.34.1"
image = { version = "=0.25.10", default-features = false }
rustc_apfloat = "*"
tokio = { version = "=1.53.2", features = ["io-util"] }
