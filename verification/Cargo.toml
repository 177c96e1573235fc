[package]
name = "blog_tools"
version = "0.1.0"
edition = "2021"
publish = false

[dependencies]
jieba-rs = "=0.6.8"
chrono = { version = "=0.4.45", features = ["serde"] }
tantivy = "=0.19.2"
serde = { version = "=1.0.229", features = ["derive"] }
serde_json = "=1.0.154"
toml = "=0.8.23"
walkdir = "=2.5.0"
anyhow = "=1.0.104"
once_cell = "=1.21.4"
clap = { version = "=4.6.7", features = ["derive"] }
colored = "=2.2.0"
tokio = { version = "=1.54.1", features = ["full"] }
axum = "=0.6.20"
http = "=0.2.12"
tower-http = { version = "=0.4.4", features = ["cors", "fs"] }
actix-web = "=4.18.1"
actix-files = "=0.6.10"
actix-multipart = "=0.6.2"
tera = "=1.20.1"
tracing = "=0.1.44"
tracing-subscriber = "=0.3.23"
