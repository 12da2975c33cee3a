[package]
name = "stt_bench"
version = "0.1.0"
edition = "2021"
publish = false

[dependencies]
arrow = { version = "58", default-features = false }
clap = { version = "4", features = ["derive"] }
hound = "3.5"
parquet = "58"
tracing = "0.1"
tracing-subscriber = "0.3"
