[package]
name = "euralios"
version = "0.1.0"
edition = "2021"
publish = false

[dependencies]
object = "*"
serde_json = "*"
