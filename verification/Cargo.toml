[package]
name = "frost_snake"
version = "0.1.0"
edition = "2021"
publish = false

[dependencies]
fixed = "1"
ascii = "1"
csv = "1"
eyre = "0.6"
thiserror = "1"
