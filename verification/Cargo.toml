[package]
name = "orderbook"
version = "0.1.0"
edition = "2021"
publish = false

[dependencies]
priority-queue = "*"
rust_decimal = "*"
serde_json = "*"
serde = { version = "*", features = ["derive"] }
tokio = { version = "*", features = ["macros", "rt-multi-thread", "sync", "time"] }
tokio-tungstenite = "*"
futures-util = "*"
tokio-stream = "*"
tonic = "0.12"
prost = "0.13"
async-trait = "*"
config = { version = "*", default-features = false, features = ["yaml"] }
secrecy = { version = "0.8", features = ["serde"] }
anyhow = "*"
thiserror = "*"
tracing = "*"
tracing-subscriber = { version = "*", features = ["env-filter"] }
tracing-bunyan-formatter = "*"
once_cell = "*"
