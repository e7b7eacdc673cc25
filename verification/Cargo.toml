[package]
name = "exchange"
version = "0.1.0"
edition = "2021"
publish = false

[dependencies]
rust_decimal = "=1.43.0"
serde = { version = "=1.0.229", features = ["derive"] }
serde_json = "=1.0.154"
redis = "=1.8.1"
scylla = "=1.9.0"
tokio = { version = "=1.54.1", features = ["full"] }
uuid = { version = "=1.29.0", features = ["v4"] }
chrono = "=0.4.45"
jsonwebtoken = "=9.3.1"
actix-web = "4"
futures-util = "0.3"
tokio-tungstenite = "*"
once_cell = "1"
dotenv = "0.15"
tracing = "0.1"
