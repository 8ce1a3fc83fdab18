[package]
name = "cat_show_downloader"
version = "1.0.0"
edition = "2021"
publish = false

[dependencies]
regex = "=1.13.1"
unidecode = "=0.3.0"
isolang = "=2.4.0"
clap = { version = "=4.6.7", features = ["derive"] }
tokio = { version = "=1.54.1", features = ["full"] }
reqwest = { version = "=0.12.28", default-features = false, features = ["json", "rustls-tls"] }
serde = { version = "=1.0.229", features = ["derive"] }
serde_json = "=1.0.154"
indicatif = "=0.17.11"
tracing = "=0.1.44"
tracing-subscriber = { version = "=0.3.23", features = ["env-filter"] }
anyhow = "=1.0.104"
thiserror = "=2.0.21"
