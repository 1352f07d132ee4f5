[package]
name = "hidraw_rs"
version = "0.1.0"
edition = "2021"
publish = false

[dependencies]
anyhow = "1"
log = "0.4"
mio = "0.6"
nix = "0.17"
tokio = { version = "0.2", features = ["io-driver", "io-util"] }
udev = "0.4"
