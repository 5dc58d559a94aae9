[package]
name = "latex_extract"
version = "0.1.0"
edition = "2021"
publish = false

[dependencies]
regex = "=1.13.1"
aho-corasick = "=1.1.5"
unicode-normalization = "=0.1.26"
encoding_rs = "=0.8.44"
flate2 = "=1.1.10"
tar = "=0.4.46"
serde = { version = "=1.0.229", features = ["derive"] }
serde_json = "=1.0.154"
anyhow = "=1.0.104"
clap = { version = "=4.6.7", features = ["derive"] }
rayon = "=1.12.0"
tracing = "=0.1.44"
tracing-subscriber = "=0.3.23"
indicatif = "=0.17.11"
arrow = { version = "=60.1.0", default-features = false }
parquet = { version = "=60.1.0", default-features = false, features = ["arrow", "zstd"] }
tikv-jemallocator = "=0.6.1"
tikv-jemalloc-ctl = { version = "=0.6.1", features = ["stats"] }
