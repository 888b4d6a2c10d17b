[package]
name = "keck"
version = "0.1.0"
edition = "2021"
publish = false

[dependencies]
aya = "0.13"
axum = "0.7"
chrono = { version = "0.4", features = ["serde"] }
env_logger = "0.11"
k8s-openapi = { version = "0.23", features = ["latest"] }
kube = { version = "0.96", default-features = false, features = ["client", "runtime", "rustls-tls"] }
libc = "0.2"
log = "0.4"
prometheus-client = "0.22"
reqwest = { version = "0.12", default-features = false, features = ["blocking", "json", "rustls-tls"] }
serde = { version = "1", features = ["derive"] }
serde_json = "1"
thiserror = "1"
tokio = { version = "1", features = ["full"] }
tower-http = { version = "0.6", features = ["cors"] }
