[package]
name = "iris"
version = "0.1.0"
edition = "2021"
publish = false

[dependencies]
syntect = { version = "5", default-features = false, features = ["default-fancy"] }
strip-ansi-escapes = "0.2"
libc = "0.2"
