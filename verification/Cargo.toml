[package]
name = "ksmm"
version = "0.1.0"
edition = "2021"
publish = false

[dependencies]
chrono = "*"
clap = { version = "*", features = ["derive"] }
zip = { version = "*", default-features = false, features = ["deflate"] }
