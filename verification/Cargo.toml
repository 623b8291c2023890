[package]
name = "redis_import"
version = "0.1.0"
edition = "2021"
publish = false

[dependencies]
redis = { version = "0.16.0", default-features = false }
