[package]
name = "dekaf"
version = "0.1.0"
edition = "2021"
publish = false

[dependencies]
serde_json = "1"
md5 = "0.7"
serde = { version = "1", features = ["derive"] }
anyhow = "1"
futures = "0.3"
postgrest = "*"
