[package]
name = "wz"
version = "0.1.0"
edition = "2021"
publish = false

[dependencies]
ego-tree = "*"
inflate = "=0.4.5"
squish = "=1.0.0"
image = { version = "=0.25.10", default-features = false, features = ["png"] }
