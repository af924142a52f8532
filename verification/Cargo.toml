[package]
name = "deltahist"
version = "0.1.0"
edition = "2021"
publish = false

[dependencies]
hdrhistogram = "7"
base64 = "0.13"
flate2 = "1"
csv = "1"
clap = { version = "3", features = ["derive"] }
