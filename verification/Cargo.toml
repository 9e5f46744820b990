[package]
name = "kagurarr"
version = "0.1.6"
edition = "2021"
publish = false

[dependencies]
anyhow = "1"
chrono = "0.4"
lofty = "*"
reqwest = { version = "0.12", default-features = false, features = ["json"] }
rusqlite = "*"
serde = { version = "1", features = ["derive"] }
serde_json = "1"
strsim = "0.11"
tokio = { version = "1", features = ["macros", "rt-multi-thread", "time"] }
toml = "*"
tracing = "0.1"
tracing-subscriber = { version = "0.3", features = ["env-filter"] }
uuid = { version = "1", features = ["v4"] }
