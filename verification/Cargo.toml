[package]
name = "homeworks"
version = "0.1.0"
edition = "2021"
publish = false
rust-version = "1.95"

[dependencies]
scraper = "=0.18.1"
serde_json = "=1.0.154"
serde = { version = "1", features = ["derive"] }
thiserror = "1"
log = "0.4"
pretty_env_logger = "0.5"
ulid = "=1.1.4"
rand = "0.8"
redis = { version = "0.23", default-features = false }
config = { version = "0.13", default-features = false, features = ["toml"] }
tokio = { version = "1", features = ["rt-multi-thread", "macros"] }
dptree = "0.3"
teloxide = { version = "0.12", features = ["macros"] }
takecell = ">=0.1.0, <0.1.2"
