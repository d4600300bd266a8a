[package]
name = "codesearch"
version = "0.1.0"
edition = "2021"
publish = false

[dependencies]
anyhow = "=1.0.104"
chrono = "=0.4.45"
colored = "=2.2.0"
ctrlc = "=3.5.2"
dashmap = "=6.2.1"
dirs = "=5.0.1"
fs2 = "=0.4.3"
heed = "=0.20.5"
indicatif = "=0.17.11"
rayon = "=1.12.0"
regex = "=1.13.1"
reqwest = { version = "=0.12.28", default-features = false, features = ["json", "blocking"] }
rmcp = { version = "=1.8.0", features = ["client", "server", "transport-io", "transport-streamable-http-client-reqwest"] }
serde = { version = "=1.0.229", features = ["derive"] }
serde_json = "=1.0.154"
tokio = { version = "=1.54.1", features = ["full"] }
tokio-util = "=0.7.20"
tracing = "=0.1.44"
tracing-appender = "=0.2.5"
tracing-subscriber = { version = "=0.3.23", features = ["env-filter"] }
