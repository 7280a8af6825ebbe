[package]
name = "monetproxy"
version = "0.1.0"
edition = "2021"
publish = false

[dependencies]
anyhow = "1"
argsplitter = "*"
box_drawing = "*"
