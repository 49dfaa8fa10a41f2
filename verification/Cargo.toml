[package]
name = "pyth_updater"
version = "0.1.0"
edition = "2021"
publish = false

[dependencies]
hex = "0.4"
serde = { version = "1", features = ["derive"] }
serde_json = "1"
reqwest = { version = "0.12", features = ["json"], default-features = false }
tokio = { version = "1", features = ["rt-multi-thread", "macros", "time"] }
anyhow = "1"
