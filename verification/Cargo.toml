[package]
name = "farming"
version = "0.1.0"
edition = "2021"
publish = false

[dependencies]
sp-core = "=43.0.0"
sp-runtime = "=49.0.0"
