[package]
name = "token_bucket"
version = "0.1.0"
edition = "2021"
publish = false

[dependencies]
rand = "0.8"
futures = "0.3"
futures-timer = "3"
