[package]
name = "ctxone_hub"
version = "0.1.0"
edition = "2021"
publish = false

[dependencies]
chrono = "=0.4.45"
serde = { version = "=1.0.229", features = ["derive"] }
serde_json = "=1.0.154"
lru = "=0.19.0"
thiserror = "=2.0.21"
toml = "*"
