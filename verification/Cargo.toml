[package]
name = "rust-dap-rp2040"
version = "0.1.0"
edition = "2021"
publish = false

[dependencies]
pio = "0.2"
rp2040-hal = "0.7"
