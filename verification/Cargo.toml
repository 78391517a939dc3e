[package]
name = "mtt"
version = "0.1.0"
edition = "2021"
publish = false

[dependencies]
base64 = "=0.13.1"
flate2 = "=1.1.10"
sha2 = "0.9"
srp = "=0.5.0"
zstd = "=0.14.0"
