[package]
name = "wpengine"
version = "0.1.0"
edition = "2021"
publish = false

[dependencies]
dirs = "*"
serde = { version = "*", features = ["derive"] }
serde_json = "*"
walkdir = "*"
nix = { version = "*", features = ["user"] }
tokio = { version = "*", features = ["full"] }
axum = "*"
tower-http = { version = "*", features = ["cors"] }
steamworks = "*"
