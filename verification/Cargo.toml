[package]
name = "groups_bot"
version = "0.1.0"
edition = "2021"
publish = false

[dependencies]
url = "=2.5.8"
log = "*"
env_logger = "*"
threadpool = "*"
r2d2 = "=0.8.10"
r2d2_redis = "=0.14.0"
redis = "=0.20.2"
telegram-bot = "=0.8.0"
tokio = { version = "=0.2.25", features = ["full"] }
futures = "0.3"
