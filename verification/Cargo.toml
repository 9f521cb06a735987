[package]
name = "filebase"
version = "0.1.0"
edition = "2021"
publish = false

[dependencies]
slpc = { version = "=0.7.0", features = ["fs"] }
slipql = "=0.3.0"
potext = "=0.1.0"
flyleaf = { version = "=0.2.8", default-features = false }
eframe = { version = "=0.36.2", default-features = false, features = ["glow", "default_fonts", "x11"] }
rfd = { version = "=0.16.1", default-features = false, features = ["xdg-portal", "tokio"] }
opener = "=0.9.0"
tempfile = "=3.27.0"
