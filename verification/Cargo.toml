[package]
name = "fileshare_client"
version = "0.1.0"
edition = "2021"
publish = false

[dependencies]
anyhow = "1"
paris = { version = "1.5", features = ["macros"] }
serde = { version = "1", features = ["derive"] }
serde_derive = "1"
serde_json = "1"
tokio = { version = "1", features = ["fs", "macros", "rt-multi-thread"] }
