[package]
name = "sealed_env"
version = "0.1.0"
edition = "2021"
publish = false

[dependencies]
base64 = "*"
chacha20poly1305 = "*"
clap = { version = "*", features = ["derive"] }
rand = "*"
secrecy = "*"
zeroize = "*"
