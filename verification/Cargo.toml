[package]
name = "song_recommender"
version = "0.1.0"
edition = "2021"
publish = false

[dependencies]
anyhow = "1"
axum = "0.7"
bincode = "1"
chrono = "0.4"
env_logger = "0.11"
itertools = "0.12"
log = "0.4"
notify = "6"
serde = { version = "1", features = ["derive"] }
tokio = { version = "1", features = ["full"] }
tokio-util = "0.7"
tracing = "0.1"
tracing-subscriber = { version = "0.3", features = ["env-filter"] }
