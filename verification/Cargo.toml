[package]
name = "pg_retest"
version = "0.1.0"
edition = "2021"
publish = false

[dependencies]
anyhow = "1"
axum = "0.8"
bytes = "1"
chrono = { version = "=0.4.45", features = ["serde"] }
clap = { version = "4", features = ["derive"] }
csv = "=1.4.0"
dashmap = "=6.2.1"
pg_query = "6"
quick-xml = "=0.40.1"
regex = "=1.13.1"
reqwest = { version = "0.12", default-features = false, features = ["json"] }
rmp-serde = "1"
rusqlite = { version = "0.32", features = ["bundled"] }
rustls = { version = "0.23", default-features = false, features = ["ring", "std", "tls12"] }
rustls-native-certs = "0.8"
rustls-pemfile = "2"
serde = { version = "1", features = ["derive"] }
serde_json = "1"
socket2 = { version = "0.5", features = ["all"] }
thiserror = "2"
tokio = { version = "1", features = ["full"] }
tokio-postgres = "0.7"
tokio-postgres-rustls = "0.13"
tokio-rustls = { version = "0.26", default-features = false, features = ["ring", "tls12"] }
tokio-util = "0.7"
toml = "0.8"
tracing = "0.1"
tracing-subscriber = { version = "0.3", features = ["env-filter", "json"] }
uuid = { version = "1", features = ["v4"] }
