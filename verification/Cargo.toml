[package]
name = "sidekick"
version = "0.1.0"
edition = "2021"
publish = false

[dependencies]
deadpool-postgres = "0.14"
dotenv = "0.15"
k8s-openapi = { version = "*", features = ["latest"] }
kube = "*"
redis = { version = "*", features = ["aio", "tokio-comp", "connection-manager"] }
reqwest = { version = "0.12", default-features = false, features = ["json"] }
rocket = { version = "0.5", features = ["json"] }
rocket_okapi = { version = "0.9", features = ["swagger"] }
rocket_prometheus = "0.10"
serde = { version = "1", features = ["derive"] }
serde_json = "1"
tokio = { version = "1", features = ["full"] }
tokio-postgres = { version = "0.7", features = ["with-serde_json-1"] }
tokio-util = { version = "0.7", features = ["compat"] }
tracing = "0.1"
