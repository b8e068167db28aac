[package]
name = "dataingester"
version = "0.1.0"
edition = "2021"
publish = false

[dependencies]
anyhow = "=1.0.104"
async-trait = "=0.1.92"
axum = "=0.8.9"
axum-extra = { version = "=0.12.6", features = ["typed-header"] }
axum-server = { version = "=0.8.0", features = ["tls-rustls"] }
chrono = "=0.4.45"
clap = { version = "=4.6.7", features = ["cargo"] }
csv = "=1.4.0"
digest = "=0.11.3"
futures = "=0.3.34"
influxdb = "=0.8.0"
notify = "=8.2.0"
notify-debouncer-full = "=0.7.0"
questdb-rs = "*"
rand = "=0.10.3"
reqwest = { version = "=0.13.5", default-features = false }
rustls = "=0.23.45"
serde = { version = "=1.0.229", features = ["derive"] }
serde_json = "=1.0.151"
sha2 = "=0.11.0"
shellexpand = "=3.1.2"
tokio = { version = "=1.53.2", features = ["macros", "rt-multi-thread", "signal", "net", "time"] }
toml = "=1.1.7"
tracing = "=0.1.44"
tracing-appender = "=0.2.5"
tracing-subscriber = { version = "=0.3.23", features = ["env-filter"] }
walkdir = "=2.5.0"
