[package]
name = "collection_cache"
version = "0.1.0"
edition = "2021"
publish = false

[dependencies]
clap = { version = "3", features = ["derive", "env"] }
env_logger = "0.9"
ignore = "0.4"
juniper = "0.15"
juniper_warp = "0.7"
log = "0.4"
notify = "5"
serde = { version = "1", features = ["derive"] }
serde_yaml = "0.8"
thiserror = "1"
tokio = { version = "1", features = ["macros", "rt-multi-thread"] }
warp = "0.3"
