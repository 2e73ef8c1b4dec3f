[package]
name = "eval_search"
version = "0.1.0"
edition = "2021"
publish = false

[dependencies]
anyhow = "=1.0.104"
clap = { version = "=4.6.7", features = ["derive"] }
colored = "=2.2.0"
indicatif = "=0.17.11"
itertools = "=0.12.1"
rayon = "=1.12.0"
regex = "=1.13.1"
serde = { version = "=1.0.229", features = ["derive"] }
serde_json = { version = "=1.0.154", features = ["raw_value"] }
walkdir = "=2.5.0"
zip = { version = "=0.6.6", default-features = false, features = ["deflate"] }
