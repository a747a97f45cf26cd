[package]
name = "blocky"
version = "0.1.0"
edition = "2021"
publish = false

[dependencies]
sha1 = "0.10"
hex = "0.4"
uuid = "1"
thiserror = "1"
reqwest = { version = "0.12", default-features = false }
