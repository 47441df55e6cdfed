[package]
name = "hourai_cache"
version = "0.1.0"
edition = "2021"
publish = false

[dependencies]
base64 = "=0.23.1"
flate2 = "=1.1.10"
redis = { version = "=1.7.1", default-features = false }
twilight-model = "=0.15.4"
twilight-lavalink = "=0.15.3"
