[package]
name = "ai_search_demo"
version = "0.1.0"
edition = "2021"
publish = false

[dependencies]
anyhow = "=1.0.104"
bincode = "=1.3.3"
glob = "=0.3.4"
notify = "=8.2.1"
pdf-extract = "=0.12.1"
serde = { version = "=1.0.229", features = ["derive"] }
serde_json = "=1.0.154"
sled = "=0.34.7"
tantivy = "=0.27.0"
tantivy-jieba = "=0.21.0"
thiserror = "=2.0.21"

[dev-dependencies]
regex = "=1.13.1"
