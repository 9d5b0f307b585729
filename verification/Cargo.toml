[package]
name = "skyhawk_rust"
version = "0.1.0"
edition = "2021"
publish = false

[dependencies]
axum = "0.8"
crossbeam-skiplist = "0.1"
dashmap = "6"
dns-lookup = "2"
dotenv = "0.15"
futures = "0.3"
hostname = "0.4"
rdkafka = "0.37"
reqwest = { version = "0.12", default-features = false, features = ["json"] }
serde = { version = "1", features = ["derive"] }
serde_json = "1"
sqlx = { version = "0.8", default-features = false, features = ["postgres", "runtime-tokio", "time", "migrate"] }
thiserror = "2"
time = "0.3"
tokio = { version = "1", features = ["full"] }
tokio-util = "0.7"
tracing = "0.1"
tracing-subscriber = "0.3"
uuid = { version = "1", features = ["v4"] }
