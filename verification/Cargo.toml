[package]
name = "aplang"
version = "0.1.0"
edition = "2021"
publish = false

[dependencies]
miette = { version = "7", features = ["fancy"] }
owo-colors = "4"
rand = "0.8"
thiserror = "1"
