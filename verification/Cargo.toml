[package]
name = "dirlist"
version = "0.1.0"
edition = "2021"
publish = false

[dependencies]
chrono = { version = "0.4", default-features = false, features = ["clock", "std"] }
colored = "2"
terminal_size = "*"
users = "0.11"
xattr = "1"
