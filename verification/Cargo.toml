[package]
name = "gust"
version = "0.1.0"
edition = "2021"
publish = false

[dependencies]
anyhow = "1"
axum = "=0.6.20"
bstr = "1"
bytes = "=1.12.1"
chrono = "0.4"
clap = { version = "4", features = ["derive"] }
diffs = "=0.5.1"
futures = "0.3"
hyper = { version = "=0.14.32", features = ["full"] }
sea-orm = { version = "=0.12.15", default-features = false, features = ["macros", "with-chrono"] }
tokio = { version = "1", features = ["fs", "io-util", "macros", "rt-multi-thread"] }
tracing = "0.1"
