[package]
name = "mirror_aggregation"
version = "0.1.0"
edition = "2021"
publish = false

[dependencies]
anyhow = "1"
k8s-openapi = { version = "0.25", features = ["latest"] }
kube = { version = "1.1", default-features = false, features = ["client"] }
