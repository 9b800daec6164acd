[package]
name = "fpm_monitor"
version = "0.1.0"
edition = "2021"
publish = false

[dependencies]
anyhow = "*"
aws-config = "*"
aws-sdk-cloudwatch = "*"
clap = { version = "*", features = ["derive"] }
serde_json = "*"
tokio = { version = "*", features = ["macros", "rt-multi-thread", "time"] }
tracing = "*"
tracing-subscriber = "*"
