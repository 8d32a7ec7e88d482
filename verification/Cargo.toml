[package]
name = "rss_sync"
version = "0.1.0"
edition = "2021"
publish = false

[dependencies]
anyhow = "=1.0.104"
chrono = "=0.4.45"
convert_case = "=0.12.0"
rss = "=2.1.2"
serde_json = "=1.0.151"
serde-hjson = "=1.1.0"
spin-sdk = "=3.1.1"
