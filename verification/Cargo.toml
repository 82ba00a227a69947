[package]
name = "freminal"
version = "0.1.0"
edition = "2021"
publish = false

[dependencies]
unicode-segmentation = "=1.13.3"
eframe = { version = "0.29", default-features = false, features = ["default_fonts", "glow", "x11"] }
portable-pty = "0.8"
crossbeam-channel = "0.5"
anyhow = "1"
tracing = "0.1"
tracing-subscriber = { version = "0.3", features = ["env-filter"] }
conv = "0.3"
