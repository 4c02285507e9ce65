[package]
name = "collectune"
version = "0.1.0"
edition = "2021"
publish = false

[dependencies]
arrow-ipc = "*"
axum = "0.8"
blake3 = "1"
bytes = "1"
clap = { version = "4", features = ["derive"] }
duckdb = "1"
jiff = "0.2"
rayon = "1"
symphonia = { version = "0.5", features = ["all"] }
tokio = { version = "1", features = ["rt-multi-thread", "macros", "net", "sync"] }
tokio-stream = "0.1"
tower-http = { version = "0.6", features = ["cors"] }
uuid = { version = "1", features = ["v4"] }
