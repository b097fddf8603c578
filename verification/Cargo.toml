[package]
name = "yava"
version = "0.1.0"
edition = "2021"
publish = false

[dependencies]
chrono = "*"
colored = "*"
rand = "*"
sha2 = "*"
xz2 = "*"
