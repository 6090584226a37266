[package]
name = "go_text_protocol"
version = "0.1.0"
edition = "2021"
publish = false

[dependencies]
regex = "1"
error-chain = { version = "0.12", default-features = false }
