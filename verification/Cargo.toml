[package]
name = "cluster_agent"
version = "0.1.0"
edition = "2021"
publish = false

[dependencies]
anyhow = "1"
chrono = "0.4"
clap = { version = "4", features = ["derive"] }
crossbeam-channel = "0.5"
futures-util = "0.3"
k8s-openapi = { version = "0.22", features = ["v1_28"] }
kube = { version = "0.91", default-features = false, features = ["client"] }
notify = "6"
prost-types = "0.12"
regex = "1"
serde = { version = "1", features = ["derive"] }
serde_json = "1"
serde_yaml = "0.9"
signal-hook = "0.3"
signal-hook-tokio = { version = "0.3", features = ["futures-v0_3"] }
tokio = { version = "1", features = ["full"] }
tokio-stream = "0.1"
tonic = "0.11"
tonic-health = "0.11"
tonic-reflection = "0.11"
tracing = "0.1"
tracing-subscriber = { version = "0.3", features = ["env-filter"] }
