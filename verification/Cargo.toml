[package]
name = "pod_label_policy"
version = "0.1.0"
edition = "2021"
publish = false

[dependencies]
kubewarden-policy-sdk = "*"
k8s-openapi = { version = "*", features = ["latest"] }
lazy_static = "*"
serde = { version = "*", features = ["derive"] }
serde_json = "*"
slog = "*"
