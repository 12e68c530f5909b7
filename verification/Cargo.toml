[package]
name = "cargo2junit"
version = "0.1.0"
edition = "2021"
publish = false

[dependencies]
serde_json = "*"
junit-report = "*"
