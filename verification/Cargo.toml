[package]
name = "outbox_relay"
version = "0.1.0"
edition = "2021"
publish = false

[dependencies]
chrono = { version = "0.4", features = ["serde"] }
envy = "0.4"
futures-util = "0.3"
lapin = { version = "2", default-features = false }
rand = "0.9"
serde = { version = "1", features = ["derive"] }
serde_json = "1"
sqlx = { version = "0.8", default-features = false, features = ["postgres", "runtime-tokio", "chrono", "uuid"] }
tokio = { version = "1", features = ["full"] }
tokio-executor-trait = "2"
tokio-reactor-trait = "1"
tokio-stream = "0.1"
uuid = { version = "1", features = ["v4", "serde"] }
