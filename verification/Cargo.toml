[package]
name = "cloud_cost"
version = "0.1.0"
edition = "2021"
publish = false

[dependencies]
chrono = "=0.4.45"
anyhow = "1"
async-trait = "0.1"
aws-config = { version = "=1.11.0", features = ["behavior-version-latest"] }
aws-credential-types = "1"
aws-types = "=1.6.0"
aws-sdk-costexplorer = "1"
aws-sdk-iam = "1"
aws-sdk-organizations = "1"
aws-sdk-sts = "1"
axum = "0.7"
clap = { version = "4", features = ["derive"] }
futures = "0.3"
http = "1"
serde = { version = "1", features = ["derive"] }
serde_json = "1"
tokio = { version = "1", features = ["full"] }
tracing = "0.1"
tracing-subscriber = { version = "0.3", features = ["env-filter"] }
