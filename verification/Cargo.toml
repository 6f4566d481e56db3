[package]
name = "blockmodel"
version = "0.1.0"
edition = "2021"
publish = false

[dependencies]
colorgrad = { version = "=0.9.0", features = ["preset"] }
