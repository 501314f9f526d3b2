[package]
name = "a2app"
version = "0.1.0"
edition = "2021"
publish = false

[dependencies]
tokio = { version = "=1.54.1", features = ["full"] }
automerge = "=0.12.0"
autosurgeon = "=0.14.0"
samod = { version = "=0.16.0", features = ["tokio", "axum", "tungstenite"] }
samod-core = "=0.16.0"
axum = { version = "=0.8.9", features = ["ws"] }
futures = "=0.3.34"
serde = { version = "=1.0.229", features = ["derive"] }
serde_json = "=1.0.154"
tokio-tungstenite = "0.27"
tracing-subscriber = "=0.3.23"
reqwest = { version = "=0.13.5", default-features = false }
makepad-widgets = "=1.0.0"
