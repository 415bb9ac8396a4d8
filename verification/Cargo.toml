[package]
name = "reflections"
version = "0.1.0"
edition = "2021"
publish = false

[dependencies]
serde = { version = "*", features = ["derive"] }
serde_json = "*"
clap = { version = "*", features = ["derive"] }
tokio = { version = "*", features = ["rt-multi-thread", "macros", "net"] }
axum = "*"
tower-http = { version = "*", features = ["cors"] }
toml_edit = { version = "*", features = ["serde"] }
walkdir = "*"
dunce = "*"
