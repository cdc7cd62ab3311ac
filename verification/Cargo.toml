[package]
name = "rust_ds"
version = "0.1.0"
edition = "2021"
publish = false

[dependencies]
polars = { version = "0.36", features = ["lazy", "random"] }
ndarray = { version = "0.15", features = ["serde"] }
rand = "0.8"
serde_json = "1"
anyhow = "1"
tch = "0.14"
