[package]
name = "hemoglobin"
version = "0.1.0"
edition = "2021"
publish = false

[dependencies]
base64 = "0.9"
bit-vec = "0.6"
rand = "0.8"
rustty = "0.1"

[dev-dependencies]
byteorder = "1"
