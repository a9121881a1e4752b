[package]
name = "http_encoder"
version = "0.1.0"
edition = "2021"
publish = false

[dependencies]
futures = "0.1"
tokio-io = "0.1"
tk-bufstream = "*"
