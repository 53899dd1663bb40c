[package]
name = "vortexa"
version = "0.3.1"
edition = "2021"
publish = false

[dependencies]
anyhow = "1"
candle-core = "=0.9.2"
candle-nn = "=0.9.2"
clap = { version = "4", features = ["derive"] }
crossterm = "0.27"
indicatif = "0.17"
mimalloc = "0.1"
parquet = { version = "53", default-features = false, features = ["snap"] }
rand = "=0.8.8"
ratatui = "0.26"
serde = { version = "1", features = ["derive"] }
serde_json = { version = "=1.0.154", features = ["raw_value"] }
ureq = "2"
