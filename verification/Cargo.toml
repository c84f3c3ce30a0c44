[package]
name = "traceparse"
version = "0.1.0"
edition = "2021"
publish = false

[dependencies]
regex = "1"
chrono = "0.4"
clap = "3"
influxdb = "*"
tokio = { version = "1", features = ["macros", "rt-multi-thread"] }
