[package]
name = "kafka_lag"
version = "0.1.0"
edition = "2021"
publish = false

[dependencies]
chrono = "0.4"
rdkafka = "*"
tokio = { version = "1", features = ["rt-multi-thread", "macros"] }
futures = "0.3"
