[package]
name = "ndbc_data"
version = "0.1.0"
edition = "2021"
publish = false

[dependencies]
quick-xml = "*"
anyhow = "*"
clap = { version = "*", features = ["derive"] }
polars = { version = "*", default-features = false, features = ["parquet", "dtype-datetime"] }
reqwest = { version = "*", default-features = false }
tokio = { version = "*", features = ["rt-multi-thread", "macros"] }
tracing = "*"
tracing-subscriber = { version = "*", features = ["env-filter", "fmt"] }
