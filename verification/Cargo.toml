[package]
name = "quadratic-core"
version = "0.1.0"
edition = "2021"
publish = false

[dependencies]
anyhow = "=1.0.104"
arrow-array = "=60.0.0"
arrow-cast = "=60.0.0"
arrow-schema = "=60.0.0"
bytes = "=1.12.1"
calamine = { version = "=0.37.0", features = ["dates"] }
chrono = "=0.4.45"
csv = "=1.4.0"
csv-sniffer = "=0.3.1"
lexicon_fractional_index = "=0.0.3"
parquet = { version = "=60.0.0", default-features = false, features = ["arrow", "snap", "flate2-zlib-rs", "lz4", "brotli"] }
serde = { version = "=1.0.229", features = ["derive"] }
serde_json = "=1.0.154"
