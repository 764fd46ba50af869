[package]
name = "auth_boundary"
version = "0.1.0"
edition = "2021"
publish = false

[dependencies]
serde = { version = "1", features = ["derive"] }
serde_json = "1"
reqwest = { version = "0.11", default-features = false, features = ["json"] }
axum = "0.7"
schemars = "0.8"
thiserror = "1"
