[package]
name = "imgbundle"
version = "0.1.0"
edition = "2021"
publish = false

[dependencies]
anyhow = "*"
futures = "*"
image = { version = "*", default-features = false, features = ["png", "jpeg"] }
jpeg-to-pdf = "*"
tokio = { version = "*", features = ["rt-multi-thread", "macros"] }
walkdir = "*"
