[package]
name = "breathe"
version = "0.1.0"
edition = "2021"
publish = false

[dependencies]
blake3 = { version = "1", features = ["pure"] }
serde_json = "1"
serde = { version = "1", features = ["derive"] }
async-trait = "0.1"
anyhow = "1"
tokio = { version = "1", features = ["rt", "rt-multi-thread", "macros", "io-std"] }
tracing = "0.1"
tracing-subscriber = { version = "0.3", features = ["env-filter"] }
kube = { version = "1", default-features = false, features = ["client"] }
k8s-openapi = { version = "0.25", features = ["latest"] }
reqwest = { version = "0.12", default-features = false, features = ["json"] }
rmcp = { version = "0.8", features = ["server", "macros", "transport-io"] }
schemars = "1"
