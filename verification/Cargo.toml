[package]
name = "cleat_fgo"
version = "0.1.0"
edition = "2021"
publish = false

[dependencies]
cleat = "*"
flate2 = "*"
log = "*"
serde = { version = "*", features = ["derive"] }
serde_json = "*"
simple-rijndael = "*"
