[package]
name = "nexus-gen"
version = "0.1.0"
edition = "2021"
publish = false

[dependencies]
minijinja = "2"
toml = "0.8"
serde = { version = "1", features = ["derive"] }
thiserror = "1"
anyhow = "1"
clap = { version = "4", features = ["derive"] }
tokio = { version = "1", features = ["rt-multi-thread", "net", "macros"] }
axum = "0.7"
tower-http = { version = "0.5", features = ["cors"] }
