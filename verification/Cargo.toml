[package]
name = "benchmark_engine"
version = "0.1.0"
edition = "2021"
publish = false

[dependencies]
anyhow = "1"
rand = "0.8.5"
rand_distr = "0.4"
serde = { version = "1", features = ["derive"] }
serde_json = "1"
