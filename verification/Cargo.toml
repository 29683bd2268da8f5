[package]
name = "bap_onest_lite"
version = "0.1.0"
edition = "2021"
publish = false

[dependencies]
anyhow = "1"
async-trait = "0.1"
axum = "0.8"
chrono = { version = "0.4", features = ["serde"] }
chrono-tz = "0.10"
config = { version = "0.15", default-features = false, features = ["json", "toml"] }
dashmap = "6"
deadpool-redis = "0.18"
hex = "0.4"
hmac = "0.12"
indexmap = "2"
rand = "0.8"
redis = { version = "0.27", features = ["tokio-comp"] }
reqwest = { version = "0.12", default-features = false, features = ["json", "rustls-tls"] }
serde = { version = "1", features = ["derive"] }
serde_json = "1"
sha2 = "0.10"
sqlx = { version = "0.8", default-features = false, features = ["runtime-tokio", "postgres", "chrono", "uuid", "json", "derive"] }
strsim = "0.11"
tokio = { version = "1", features = ["full"] }
tokio-cron-scheduler = "0.13"
tower-http = { version = "0.6", features = ["cors"] }
tracing = "0.1"
tracing-appender = "0.2"
tracing-subscriber = { version = "0.3", features = ["json", "env-filter"] }
uuid = { version = "1", features = ["v4", "serde"] }
