[package]
name = "dependaboard"
version = "0.1.0"
edition = "2021"
publish = false

[dependencies]
async-trait = "0.1"
axum = "0.8"
base64 = "0.22"
bytes = "1"
octoevents = { version = "*", features = ["http"] }
reqwest = { version = "0.12", default-features = false, features = ["json"] }
restate-sdk = "*"
secrecy = "0.10"
serde = { version = "1", features = ["derive"] }
serde_json = "1"
subtle = "2"
thiserror = "2"
tokio = { version = "1", features = ["full"] }
tracing = "0.1"
tracing-subscriber = { version = "0.3", features = ["env-filter"] }
