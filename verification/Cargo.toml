[package]
name = "llm_wiki"
version = "0.1.0"
edition = "2021"
publish = false

[dependencies]
regex = "=1.13.1"
petgraph = "=0.8.3"
petgraph-live = "=0.5.0"
serde = { version = "=1.0.229", features = ["derive"] }
serde_json = "=1.0.154"
toml = "=0.8.23"
anyhow = "=1.0.104"
walkdir = "=2.5.0"
chrono = "=0.4.45"
