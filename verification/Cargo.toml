[package]
name = "link_cache"
version = "0.1.0"
edition = "2021"
publish = false

[dependencies]
url = "*"
urlencoding = "*"
rust-crypto = "*"
reqwest = { version = "*", default-features = false, features = ["blocking"] }
