[package]
name = "frankenstein"
version = "0.1.0"
edition = "2021"
publish = false

[dependencies]
eframe = { version = "=0.29.1", default-features = false, features = ["default_fonts", "glow", "x11"] }
image = { version = "=0.25.5", default-features = false, features = ["png"] }
rtlsdr-rs = "=0.1.0"
