[package]
name = "crawler"
version = "0.1.0"
edition = "2021"
publish = false

[dependencies]
url = "=2.5.8"
robotstxt = "=0.3.0"
scraper = "=0.27.0"
tokio = { version = "*", features = ["macros", "rt-multi-thread", "signal", "sync"] }
tokio-stream = "*"
futures = "*"
warp = { version = "=0.4.3", features = ["server"] }
serde = { version = "*", features = ["derive"] }
reqwest = { version = "*", default-features = false }
anyhow = "*"
tracing = "*"
tracing-subscriber = "*"
