[package]
name = "ipc_server"
version = "0.1.0"
edition = "2021"
publish = false

[dependencies]
anyhow = "1"
calloop = { version = "0.12", features = ["executor", "futures-io"] }
directories = "5"
futures-util = { version = "0.3", default-features = false, features = ["std", "io"] }
rustix = { version = "0.38", features = ["fs"] }
serde = { version = "1", features = ["derive"] }
serde_json = "1"
tracing = "0.1"
