[package]
name = "czdb_rs"
version = "0.1.0"
edition = "2021"
publish = false

[dependencies]
aes = "0.8"
base64 = "0.22"
byteorder = "1"
rmp = "0.8"
thiserror = "1"
wasm-bindgen = "0.2"
