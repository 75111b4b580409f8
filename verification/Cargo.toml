[package]
name = "mistralrs-bench"
version = "0.1.0"
edition = "2021"
publish = false

[dependencies]
anyhow = "1"
candle-core = "0.9"
clap = { version = "4", features = ["derive"] }
cli-table = "0.4"
either = "1"
tokio = { version = "1", features = ["sync"] }
tracing = "0.1"
