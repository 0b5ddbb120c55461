[package]
name = "mercado_session"
version = "0.1.0"
edition = "2021"
publish = false

[dependencies]
secp256k1 = "*"
