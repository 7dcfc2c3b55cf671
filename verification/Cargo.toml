[package]
name = "rssbot"
version = "2.0.0"
edition = "2021"
publish = false

[dependencies]
quick-xml = { version = "0.22", features = ["encoding"] }
serde = { version = "1", features = ["derive"] }
serde_json = "1"
reqwest = { version = "0.11", features = ["json"] }
tokio = { version = "1", features = ["full"] }
tokio-stream = "0.1"
tokio-util = { version = "0.6", features = ["time"] }
futures = "0.3"
tbot = { version = "0.6", features = ["proxy"] }
hyper-proxy = "0.9"
structopt = "0.3"
anyhow = "1"
once_cell = "1"
thiserror = "1"
chrono = "0.4"
either = "1"
pinyin = "0.8"
